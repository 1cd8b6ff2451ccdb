use futures::channel::mpsc::TryRecvError;
use tachy_reaccy::{
    Effect, EffectNotifier, Memo, NotificationSender, Owner, Reactions, ReactiveError,
    ReactiveNodeState, Runtime, Signal,
};

/// An effect that copies a signal into a log, and a memo it may read.
struct Recorder {
    source: Signal,
    doubled: Option<Memo>,
    effect: Option<Effect>,
    seen: Vec<(i32, Option<i32>)>,
    scopes: Vec<Option<usize>>,
    made: Vec<Signal>,
    doublings: u32,
}

impl Reactions<i32> for Recorder {
    fn run(&mut self, rt: &mut Runtime<i32>, node: usize, previous: Option<i32>) -> i32 {
        if self.doubled.map(|m| m.node() == node).unwrap_or(false) {
            self.doublings += 1;
            return self.source.get(rt).unwrap() * 2;
        }
        assert_eq!(Some(node), self.effect.map(|e| e.node));
        self.scopes.push(rt.current_owner());
        self.made.push(Signal::new(rt, 0));
        let value = match self.doubled {
            Some(memo) => memo.get(rt, self).unwrap(),
            None => self.source.get(rt).unwrap(),
        };
        self.seen.push((value, previous));
        value
    }

    fn cleanup(&mut self, _rt: &mut Runtime<i32>, _token: usize) {}
}

fn recorder(rt: &mut Runtime<i32>) -> Recorder {
    let source = Signal::new(rt, 1);
    Recorder {
        source,
        doubled: None,
        effect: None,
        seen: Vec::new(),
        scopes: Vec::new(),
        made: Vec::new(),
        doublings: 0,
    }
}

#[test]
fn a_new_effect_is_woken_at_once() {
    let mut rt: Runtime<i32> = Runtime::new();
    let (effect, mut rx) = Effect::new(&mut rt);
    assert_eq!(rx.try_recv(), Ok(()));
    assert_eq!(rx.try_recv(), Err(TryRecvError::Empty));
    assert_eq!(rt.state_of(effect.node), Some(ReactiveNodeState::Dirty));
    assert_eq!(effect.to_any_subscriber().0, effect.node);
}

#[test]
fn an_effect_runs_with_the_value_it_made_last() {
    let mut rt: Runtime<i32> = Runtime::new();
    let mut fns = recorder(&mut rt);
    let (effect, mut rx) = Effect::new(&mut rt);
    fns.effect = Some(effect);
    assert_eq!(rx.try_recv(), Ok(()));
    assert_eq!(effect.run(&mut rt, &mut fns), Ok(()));
    assert_eq!(fns.seen, vec![(1, None)]);
    assert_eq!(rt.state_of(effect.node), Some(ReactiveNodeState::Clean));
    assert_eq!(rx.try_recv(), Err(TryRecvError::Empty));

    // a write to what the effect has read wakes it
    fns.source.set(&mut rt, 5);
    assert_eq!(rt.state_of(effect.node), Some(ReactiveNodeState::Check));
    assert_eq!(rx.try_recv(), Ok(()));
    assert_eq!(effect.run(&mut rt, &mut fns), Ok(()));
    assert_eq!(fns.seen, vec![(1, None), (5, Some(1))]);
    assert_eq!(rt.observer(), None);
}

#[test]
fn wake_ups_coalesce() {
    let mut rt: Runtime<i32> = Runtime::new();
    let mut fns = recorder(&mut rt);
    let (effect, mut rx) = Effect::new(&mut rt);
    fns.effect = Some(effect);
    assert_eq!(rx.try_recv(), Ok(()));
    assert_eq!(effect.run(&mut rt, &mut fns), Ok(()));

    for value in 0..10 {
        fns.source.set(&mut rt, value);
    }
    let mut woken = 0;
    while rx.try_recv() == Ok(()) {
        woken += 1;
    }
    assert_eq!(woken, 1, "one wake-up waits, the rest is dropped");
    assert_eq!(effect.run(&mut rt, &mut fns), Ok(()));
    assert_eq!(fns.seen.last(), Some(&(9, Some(1))));
}

#[test]
fn an_effect_behind_a_memo_is_woken_by_the_write() {
    let mut rt: Runtime<i32> = Runtime::new();
    let mut fns = recorder(&mut rt);
    let doubled = Memo::new(&mut rt);
    fns.doubled = Some(doubled);
    let (effect, mut rx) = Effect::new(&mut rt);
    fns.effect = Some(effect);
    assert_eq!(rx.try_recv(), Ok(()));
    assert_eq!(effect.run(&mut rt, &mut fns), Ok(()));
    assert_eq!(fns.seen, vec![(2, None)]);

    fns.source.set(&mut rt, 4);
    assert_eq!(rx.try_recv(), Ok(()));
    // asking the effect whether anything changed brings the memo up to date
    // and wakes the effect again; it does not run it
    assert_eq!(effect.update_if_necessary(&mut rt, &mut fns), Ok(true));
    assert_eq!(doubled.peek(&rt), Some(8));
    assert_eq!(fns.seen.len(), 1);
    assert_eq!(rx.try_recv(), Ok(()));
    while rx.try_recv() == Ok(()) {}
    assert_eq!(effect.run(&mut rt, &mut fns), Ok(()));
    assert_eq!(fns.seen, vec![(2, None), (8, Some(2))]);
    assert_eq!(effect.update_if_necessary(&mut rt, &mut fns), Ok(false));
    assert_eq!(rx.try_recv(), Err(TryRecvError::Empty));
}

#[test]
fn an_effect_behind_a_memo_that_comes_out_equal_is_told_nothing() {
    let mut rt: Runtime<i32> = Runtime::new();
    let mut fns = recorder(&mut rt);
    let doubled = Memo::new(&mut rt);
    fns.doubled = Some(doubled);
    let (effect, mut rx) = Effect::new(&mut rt);
    fns.effect = Some(effect);
    assert_eq!(rx.try_recv(), Ok(()));
    assert_eq!(effect.run(&mut rt, &mut fns), Ok(()));
    assert_eq!(fns.seen, vec![(2, None)]);
    assert_eq!(fns.doublings, 1);

    // the same value again: the write wakes the effect all the same
    fns.source.set(&mut rt, 1);
    assert_eq!(rx.try_recv(), Ok(()));
    assert_eq!(rx.try_recv(), Err(TryRecvError::Empty));
    // asked, the effect has the memo computed again; it comes out equal,
    // so nothing has changed and nobody is woken
    assert_eq!(effect.update_if_necessary(&mut rt, &mut fns), Ok(false));
    assert_eq!(fns.doublings, 2);
    assert_eq!(doubled.peek(&rt), Some(2));
    assert_eq!(rt.state_of(doubled.node()), Some(ReactiveNodeState::Clean));
    assert_eq!(fns.seen.len(), 1);
    assert_eq!(rx.try_recv(), Err(TryRecvError::Empty));
}

#[test]
fn an_effect_runs_in_its_own_scope() {
    let mut rt: Runtime<i32> = Runtime::new();
    let mut fns = recorder(&mut rt);
    let outer = Owner::new(&mut rt);
    let (effect, _rx) = outer.with(&mut rt, |rt: &mut Runtime<i32>| Effect::new(rt));
    fns.effect = Some(effect);
    assert_eq!(effect.run(&mut rt, &mut fns), Ok(()));
    assert_eq!(fns.scopes, vec![Some(effect.owner.id)]);
    assert_eq!(rt.current_owner(), None);
    let made = fns.made[0];
    assert_eq!(made.get(&mut rt), Some(0));

    // what the effect made goes with the scope the effect was made in
    outer.dispose(&mut rt);
    assert_eq!(made.get(&mut rt), None);
    assert_eq!(effect.run(&mut rt, &mut fns), Err(ReactiveError::Disposed));
    assert_eq!(fns.seen.len(), 1);
}

#[test]
fn disposal_closes_the_channel() {
    let mut rt: Runtime<i32> = Runtime::new();
    let mut fns = recorder(&mut rt);
    let (effect, mut rx) = Effect::new(&mut rt);
    fns.effect = Some(effect);
    assert_eq!(rx.try_recv(), Ok(()));
    assert_eq!(effect.run(&mut rt, &mut fns), Ok(()));
    assert_eq!(rx.try_recv(), Err(TryRecvError::Empty));

    assert!(effect.dispose(&mut rt).is_empty());
    assert_eq!(rx.try_recv(), Err(TryRecvError::Closed));
    // nothing wakes what is gone
    fns.source.set(&mut rt, 3);
    assert_eq!(rx.try_recv(), Err(TryRecvError::Closed));
    assert_eq!(effect.run(&mut rt, &mut fns), Err(ReactiveError::Disposed));
    assert!(effect.dispose(&mut rt).is_empty());
}

#[test]
fn the_value_of_an_effect_can_be_amended() {
    let mut rt: Runtime<i32> = Runtime::new();
    let mut fns = recorder(&mut rt);
    let (effect, mut rx) = Effect::new(&mut rt);
    fns.effect = Some(effect);
    // nothing to amend before the first run
    assert_eq!(effect.with_value_mut(&mut rt, |v: i32| (v + 1, v)), None);
    assert_eq!(effect.run(&mut rt, &mut fns), Ok(()));
    while rx.try_recv() == Ok(()) {}

    assert_eq!(effect.with_value_mut(&mut rt, |v: i32| (v + 10, v)), Some(1));
    assert_eq!(rt.peek(effect.node), Some(11));
    // amending wakes nobody
    assert_eq!(rx.try_recv(), Err(TryRecvError::Empty));
    fns.source.set(&mut rt, 2);
    assert_eq!(effect.run(&mut rt, &mut fns), Ok(()));
    assert_eq!(fns.seen.last(), Some(&(2, Some(11))));
}

#[test]
fn a_written_cell_counts_as_a_change_when_asked() {
    let mut rt: Runtime<i32> = Runtime::new();
    let mut fns = recorder(&mut rt);
    let (effect, mut rx) = Effect::new(&mut rt);
    fns.effect = Some(effect);
    assert_eq!(effect.run(&mut rt, &mut fns), Ok(()));
    while rx.try_recv() == Ok(()) {}

    // a cell that was written before the effect came to depend on it: the
    // push phase has told the effect nothing
    let late = Signal::new(&mut rt, 0);
    late.set(&mut rt, 1);
    effect.add_source(&mut rt, late.cell().to_any_source());
    effect.mark_check(&mut rt);
    while rx.try_recv() == Ok(()) {}
    assert_eq!(rt.plan(effect.node), tachy_reaccy::model::Pull::Unsure);

    // the cell answers "changed", and so does the effect
    assert_eq!(effect.update_if_necessary(&mut rt, &mut fns), Ok(true));
    assert_eq!(rx.try_recv(), Ok(()));
    assert_eq!(rt.state_of(late.inner.slot), Some(ReactiveNodeState::Clean));
    assert_eq!(fns.seen.len(), 1, "the effect is woken, not run");
}

#[test]
fn the_value_belongs_to_the_run_while_it_lasts() {
    struct Prober {
        effect: Option<Effect>,
        found: Vec<Option<i32>>,
    }
    impl Reactions<i32> for Prober {
        fn run(&mut self, rt: &mut Runtime<i32>, _node: usize, previous: Option<i32>) -> i32 {
            let effect = self.effect.unwrap();
            self.found.push(effect.with_value_mut(rt, |v: i32| (v + 100, v)));
            previous.unwrap_or(0) + 1
        }

        fn cleanup(&mut self, _rt: &mut Runtime<i32>, _token: usize) {}
    }
    let mut rt: Runtime<i32> = Runtime::new();
    let mut fns = Prober { effect: None, found: Vec::new() };
    let (effect, _rx) = Effect::new(&mut rt);
    fns.effect = Some(effect);
    assert_eq!(effect.run(&mut rt, &mut fns), Ok(()));
    assert_eq!(effect.run(&mut rt, &mut fns), Ok(()));
    // neither run could get at the value, and the function given was not called
    assert_eq!(fns.found, vec![None, None]);
    assert_eq!(rt.peek(effect.node), Some(2));
    // at rest it can be had
    assert_eq!(effect.with_value_mut(&mut rt, |v: i32| (v + 100, v)), Some(2));
    assert_eq!(rt.peek(effect.node), Some(102));
}

#[test]
fn marking_an_effect_wakes_it() {
    let mut rt: Runtime<i32> = Runtime::new();
    let mut fns = recorder(&mut rt);
    let (effect, mut rx) = Effect::new(&mut rt);
    fns.effect = Some(effect);
    assert_eq!(effect.run(&mut rt, &mut fns), Ok(()));
    while rx.try_recv() == Ok(()) {}

    effect.mark_check(&mut rt);
    assert_eq!(rx.try_recv(), Ok(()));
    assert_eq!(rt.state_of(effect.node), Some(ReactiveNodeState::Check));
    effect.mark_dirty(&mut rt);
    assert_eq!(rx.try_recv(), Ok(()));

    // edges by hand
    effect.clear_sources(&mut rt);
    fns.source.set(&mut rt, 7);
    assert_eq!(rx.try_recv(), Err(TryRecvError::Empty));
    effect.add_source(&mut rt, fns.source.cell().to_any_source());
    fns.source.set(&mut rt, 8);
    assert_eq!(rx.try_recv(), Ok(()));
}

#[test]
fn senders_know_their_channel() {
    let (mut first, mut rx) = NotificationSender::channel();
    let (second, _rx2) = NotificationSender::channel();
    assert!(first.same_receiver(&first));
    assert!(!first.same_receiver(&second));

    assert_eq!(rx.try_recv(), Err(TryRecvError::Empty));
    first.notify();
    assert_eq!(rx.try_recv(), Ok(()));
    assert_eq!(rx.try_recv(), Err(TryRecvError::Empty));
    for _ in 0..5 {
        first.notify();
    }
    assert_eq!(rx.try_recv(), Ok(()));
    while rx.try_recv() == Ok(()) {}
    drop(first);
    assert_eq!(rx.try_recv(), Err(TryRecvError::Closed));

    let (mut notifier, mut rx3) = EffectNotifier::new();
    let (other, _rx4) = EffectNotifier::new();
    assert!(notifier.same_effect(&notifier));
    assert!(!notifier.same_effect(&other));
    notifier.notify();
    assert_eq!(rx3.try_recv(), Ok(()));
    drop(notifier);
    assert_eq!(rx3.try_recv(), Err(TryRecvError::Closed));
}
