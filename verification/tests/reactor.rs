use ether::reactor::{
    Actor, Addr, Behavior, Config, Effect, Error, Event, Forward, Idiom, Label, Message, Sink, Tag,
    UPDATED_TWICE,
};

#[test]
fn sink_behavior() {
    let sink = Addr::At(0);
    let actor = Actor::new(Sink::new());
    assert_eq!(sink, sink);

    let event = Event::new(&sink, Message::Empty);
    let effect = actor.dispatch(event).expect("Dispatch failed.");

    assert_eq!(0, effect.actors.len());
    assert_eq!(0, effect.events.len());
}

struct Once {
    cust: Addr,
}
impl Behavior for Once {
    fn react(&self, event: Event) -> Result<Effect, Error> {
        let mut effect = Effect::new();
        effect.send(&self.cust, event.message);
        effect.update(Idiom::Sink(Sink))?;
        Ok(effect)
    }
}

#[test]
fn once_behavior() {
    let sink = Addr::At(0);
    let once = Addr::At(1);
    let mut actor = Actor::new(Box::new(Once { cust: sink }));

    let event = Event::new(&once, Message::Empty);
    let effect = actor.dispatch(event).expect("Dispatch failed.");

    assert_eq!(0, effect.actors.len());
    assert_eq!(1, effect.events.len());

    let behavior = effect.update.expect("Expected update.");
    actor.update(Box::new(behavior));

    let event = Event::new(&once, Message::Empty);
    let effect = actor.dispatch(event).expect("Dispatch failed.");

    assert_eq!(0, effect.actors.len());
    assert_eq!(0, effect.events.len());
}

struct Maker;
impl Behavior for Maker {
    fn react(&self, event: Event) -> Result<Effect, Error> {
        let mut effect = Effect::new();
        match event.message {
            Message::Addr(cust) => {
                let actor = effect.create(Idiom::Sink(Sink));
                effect.send(&cust, Message::Addr(actor));
                Ok(effect)
            }
            _ => Err("unknown message"),
        }
    }
}

#[test]
fn maker_behavior() {
    let maker = Addr::At(0);
    let actor = Actor::new(Box::new(Maker));

    let event = Event::new(&maker, Message::Empty);
    let reason = actor.dispatch(event).err().expect("Error expected.");
    println!("Got error = {:?}", reason);
    assert_eq!("unknown message", reason);

    let sink = Addr::At(1);
    let event = Event::new(&maker, Message::Addr(sink));
    let effect = actor.dispatch(event).expect("Dispatch failed.");

    assert_eq!(1, effect.actors.len());
    assert_eq!(1, effect.events.len());
}

#[test]
fn effect_takes_one_update_only() {
    let mut effect = Effect::new();
    assert_eq!(Ok(()), effect.update(Idiom::Sink(Sink)));
    let refused = effect.update(Idiom::Forward(Forward { subject: Addr::At(3) }));
    assert_eq!(
        Err("Attempted to update the behavior of an actor more than once"),
        refused
    );
    assert_eq!(Err(UPDATED_TWICE), effect.update(Idiom::Tag(Tag { cust: Addr::At(1) })));
    assert_eq!(Some(Idiom::Sink(Sink)), effect.update);
    assert!(effect.actors.is_empty());
    assert!(effect.events.is_empty());
}

#[test]
fn config_dispatches_no_more_than_the_limit() {
    let mut config = Config::new();
    assert_eq!(0, config.boot(Sink::new()));
    for n in 1..=5 {
        config.events.push_back(Event::new(&Addr::At(0), Message::Nat(n)));
    }
    // An event for an address that no actor has is dropped like any other.
    config.events.push_back(Event::new(&Addr::At(7), Message::Empty));
    config.events.push_back(Event::new(&Addr::New(0), Message::Empty));
    assert_eq!(7, config.dispatch(0));
    assert_eq!(5, config.dispatch(2));
    assert_eq!(Some(&Event { target: Addr::At(0), message: Message::Nat(3) }), config.events.front());
    assert_eq!(2, config.dispatch(3));
    assert_eq!(Some(&Event { target: Addr::At(7), message: Message::Empty }), config.events.front());
    assert_eq!(1, config.dispatch(1));
    assert_eq!(0, config.dispatch(9));
    assert_eq!(1, config.population());
}

#[test]
fn boot_dispatches_the_oldest_event() {
    let mut config = Config::new();
    config.events.push_back(Event::new(&Addr::At(5), Message::Nat(1)));
    // The event that waited goes first; the boot message still waits.
    assert_eq!(1, config.boot(Sink::new()));
    assert_eq!(Some(&Event { target: Addr::At(0), message: Message::Empty }), config.events.front());
}

#[test]
fn effect_numbers_the_actors_it_creates() {
    let mut effect = Effect::new();
    assert_eq!(Addr::New(0), effect.create(Idiom::Sink(Sink)));
    assert_eq!(Addr::New(1), effect.create(Idiom::Tag(Tag { cust: Addr::New(0) })));
    assert_eq!(2, effect.actors.len());
}

#[test]
fn forward_label_and_tag_pass_the_message_on() {
    let subject = Addr::At(7);
    let myself = Addr::At(2);

    let forward = Actor::new(Forward::new(&subject));
    let effect = forward.dispatch(Event::new(&myself, Message::Nat(5))).unwrap();
    assert_eq!(vec![Event { target: subject, message: Message::Nat(5) }], effect.events);
    assert!(effect.update.is_none());

    let label = Actor::new(Label::new(&subject, Message::Sym("tag")));
    let effect = label.dispatch(Event::new(&myself, Message::Int(-1))).unwrap();
    assert_eq!(
        vec![Event {
            target: subject,
            message: Message::Pair(Box::new(Message::Sym("tag")), Box::new(Message::Int(-1))),
        }],
        effect.events
    );

    let tag = Actor::new(Tag::new(&subject));
    let effect = tag.dispatch(Event::new(&myself, Message::Empty)).unwrap();
    assert_eq!(
        vec![Event {
            target: subject,
            message: Message::Pair(Box::new(Message::Addr(myself)), Box::new(Message::Empty)),
        }],
        effect.events
    );
}

#[test]
fn addresses_resolve_against_the_configuration() {
    assert_eq!(Addr::At(12), Addr::New(2).resolve(10, 3));
    assert_eq!(Addr::New(3), Addr::New(3).resolve(10, 3));
    assert_eq!(Addr::At(4), Addr::At(4).resolve(10, 3));
    let message = Message::Pair(
        Box::new(Message::Addr(Addr::New(0))),
        Box::new(Message::Pair(Box::new(Message::Num(1, 10, 2)), Box::new(Message::Addr(Addr::At(1))))),
    );
    let resolved = message.clone().resolve(5, 1);
    assert_eq!(
        Message::Pair(
            Box::new(Message::Addr(Addr::At(5))),
            Box::new(Message::Pair(
                Box::new(Message::Num(1, 10, 2)),
                Box::new(Message::Addr(Addr::At(1)))
            )),
        ),
        resolved
    );
    assert_eq!(
        Idiom::Label(Label { cust: Addr::At(6), label: Message::Addr(Addr::At(5)) }),
        Idiom::Label(Label { cust: Addr::New(1), label: Message::Addr(Addr::New(0)) }).resolve(5, 2)
    );
}

#[test]
fn config_boots_and_dispatches_in_order() {
    let mut config = Config::new();
    assert_eq!(0, config.dispatch(10));
    // A sink swallows the boot message.
    assert_eq!(0, config.boot(Sink::new()));
    assert_eq!(1, config.population());
    // A maker that is booted refuses the empty message: nothing changes.
    assert_eq!(0, config.boot(Box::new(Maker)));
    assert_eq!(2, config.population());
    // Asked by actor 0, the maker creates actor 2 and tells actor 0 its address.
    config.events.push_back(Event::new(&Addr::At(1), Message::Addr(Addr::At(0))));
    assert_eq!(1, config.dispatch(1));
    assert_eq!(3, config.population());
    assert_eq!(
        Some(&Event { target: Addr::At(0), message: Message::Addr(Addr::At(2)) }),
        config.events.front()
    );
    assert_eq!(0, config.dispatch(0) - 1);
    assert_eq!(0, config.dispatch(5));
}

#[test]
fn config_queues_events_last_sent_first() {
    struct Two;
    impl Behavior for Two {
        fn react(&self, _event: Event) -> Result<Effect, Error> {
            let mut effect = Effect::new();
            effect.send(&Addr::At(9), Message::Nat(1));
            effect.send(&Addr::At(9), Message::Nat(2));
            Ok(effect)
        }
    }
    let mut config = Config::new();
    assert_eq!(2, config.boot(Box::new(Two)));
    assert_eq!(Some(&Event { target: Addr::At(9), message: Message::Nat(2) }), config.events.front());
    assert_eq!(Some(&Event { target: Addr::At(9), message: Message::Nat(1) }), config.events.back());
    // Events for an address that no actor has are dropped.
    assert_eq!(0, config.dispatch(2));
}

#[test]
fn config_applies_an_update() {
    let mut config = Config::new();
    assert_eq!(0, config.boot(Sink::new()));
    // Actor 1 forwards once to actor 0, then becomes a sink.
    assert_eq!(1, config.boot(Box::new(Once { cust: Addr::At(0) })));
    assert_eq!(0, config.dispatch(1));
    config.events.push_back(Event::new(&Addr::At(1), Message::Nat(1)));
    assert_eq!(0, config.dispatch(1));
}
