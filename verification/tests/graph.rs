use tachy_reaccy::model::Pull;
use tachy_reaccy::{
    untrack, AnySubscriber, Memo, NodeKind, Observer, Reactions, ReactiveError, ReactiveNodeState,
    Runtime, Signal,
};

/// A table of memo functions chosen by slot, each counting its runs.
struct Table {
    a: Signal,
    b: Signal,
    parity: Option<Memo>,
    scaled: Option<Memo>,
    left: Option<Memo>,
    right: Option<Memo>,
    join: Option<Memo>,
    branchy: Option<Memo>,
    hidden: Option<Memo>,
    selfish: Option<Memo>,
    runs: Vec<(usize, u32)>,
    inner_error: Option<ReactiveError>,
}

impl Table {
    fn new(a: Signal, b: Signal) -> Self {
        Table {
            a,
            b,
            parity: None,
            scaled: None,
            left: None,
            right: None,
            join: None,
            branchy: None,
            hidden: None,
            selfish: None,
            runs: Vec::new(),
            inner_error: None,
        }
    }

    fn count(&mut self, node: usize) {
        for entry in self.runs.iter_mut() {
            if entry.0 == node {
                entry.1 += 1;
                return;
            }
        }
        self.runs.push((node, 1));
    }

    fn runs_of(&self, memo: Memo) -> u32 {
        self.runs.iter().find(|e| e.0 == memo.node()).map(|e| e.1).unwrap_or(0)
    }

    fn is(&self, slot: Option<Memo>, node: usize) -> bool {
        slot.map(|m| m.node() == node).unwrap_or(false)
    }
}

impl Reactions<i64> for Table {
    fn run(&mut self, rt: &mut Runtime<i64>, node: usize, previous: Option<i64>) -> i64 {
        self.count(node);
        if self.is(self.parity, node) {
            self.a.get(rt).unwrap() % 2
        } else if self.is(self.scaled, node) {
            let parity = self.parity.unwrap();
            parity.get(rt, self).unwrap() * 10
        } else if self.is(self.left, node) {
            let parity = self.parity.unwrap();
            parity.get(rt, self).unwrap() + 100
        } else if self.is(self.right, node) {
            let parity = self.parity.unwrap();
            parity.get(rt, self).unwrap() + 200
        } else if self.is(self.join, node) {
            let (left, right) = (self.left.unwrap(), self.right.unwrap());
            left.get(rt, self).unwrap() + right.get(rt, self).unwrap()
        } else if self.is(self.branchy, node) {
            if self.a.get(rt).unwrap() > 0 {
                self.b.get(rt).unwrap()
            } else {
                -1
            }
        } else if self.is(self.hidden, node) {
            let b = self.b;
            let seen = untrack(rt, |rt: &mut Runtime<i64>| b.get(rt).unwrap());
            self.a.get(rt).unwrap() + seen
        } else if self.is(self.selfish, node) {
            let me = self.selfish.unwrap();
            match me.get(rt, self) {
                Ok(v) => v,
                Err(e) => {
                    self.inner_error = Some(e);
                    previous.unwrap_or(0) + 1
                }
            }
        } else {
            panic!("no function for slot {node}")
        }
    }

    fn cleanup(&mut self, _rt: &mut Runtime<i64>, _token: usize) {}
}

fn setup() -> (Runtime<i64>, Table) {
    let mut rt = Runtime::new();
    let a = Signal::new(&mut rt, 1);
    let b = Signal::new(&mut rt, 7);
    (rt, Table::new(a, b))
}

#[test]
fn a_clean_memo_is_not_recomputed() {
    let (mut rt, mut t) = setup();
    let parity = Memo::new(&mut rt);
    t.parity = Some(parity);
    assert_eq!(rt.plan(parity.node()), Pull::Stale);
    assert_eq!(parity.get(&mut rt, &mut t), Ok(1));
    assert_eq!(rt.plan(parity.node()), Pull::Fresh);
    for _ in 0..5 {
        assert_eq!(parity.get(&mut rt, &mut t), Ok(1));
    }
    assert_eq!(t.runs_of(parity), 1);
    assert_eq!(parity.update_if_necessary(&mut rt, &mut t), Ok(false));
    assert_eq!(t.runs_of(parity), 1);
}

#[test]
fn one_recompute_per_batch_of_writes() {
    let (mut rt, mut t) = setup();
    let parity = Memo::new(&mut rt);
    t.parity = Some(parity);
    assert_eq!(parity.get(&mut rt, &mut t), Ok(1));
    t.a.set(&mut rt, 2);
    t.a.set(&mut rt, 4);
    t.a.set(&mut rt, 6);
    assert_eq!(rt.plan(parity.node()), Pull::Stale);
    assert_eq!(parity.get(&mut rt, &mut t), Ok(0));
    assert_eq!(t.runs_of(parity), 2);
    assert_eq!(parity.get(&mut rt, &mut t), Ok(0));
    assert_eq!(t.runs_of(parity), 2);
    t.a.set(&mut rt, 7);
    assert_eq!(parity.get(&mut rt, &mut t), Ok(1));
    assert_eq!(t.runs_of(parity), 3);
}

#[test]
fn a_write_marks_the_signal_dirty_and_what_is_downstream_check() {
    let (mut rt, mut t) = setup();
    let parity = Memo::new(&mut rt);
    let scaled = Memo::new(&mut rt);
    t.parity = Some(parity);
    t.scaled = Some(scaled);
    assert_eq!(scaled.get(&mut rt, &mut t), Ok(10));
    assert_eq!(rt.state_of(t.a.inner.slot), Some(ReactiveNodeState::Clean));
    assert_eq!(rt.state_of(parity.node()), Some(ReactiveNodeState::Clean));
    assert_eq!(rt.state_of(scaled.node()), Some(ReactiveNodeState::Clean));

    assert!(t.a.set(&mut rt, 3));
    assert_eq!(rt.state_of(t.a.inner.slot), Some(ReactiveNodeState::Dirty));
    assert_eq!(rt.state_of(parity.node()), Some(ReactiveNodeState::Check));
    assert_eq!(rt.state_of(scaled.node()), Some(ReactiveNodeState::Check));
    // the direct subscriber has been told of a change, the one behind it has not
    assert_eq!(rt.plan(parity.node()), Pull::Stale);
    assert_eq!(rt.plan(scaled.node()), Pull::Unsure);
    // the other signal is untouched
    assert_eq!(rt.state_of(t.b.inner.slot), Some(ReactiveNodeState::Clean));
}

#[test]
fn an_equal_value_stops_the_cascade() {
    let (mut rt, mut t) = setup();
    let parity = Memo::new(&mut rt);
    let scaled = Memo::new(&mut rt);
    t.parity = Some(parity);
    t.scaled = Some(scaled);
    assert_eq!(scaled.get(&mut rt, &mut t), Ok(10));
    assert_eq!((t.runs_of(parity), t.runs_of(scaled)), (1, 1));

    // 1 -> 3: the parity is computed again and comes out the same
    t.a.set(&mut rt, 3);
    assert_eq!(scaled.get(&mut rt, &mut t), Ok(10));
    assert_eq!((t.runs_of(parity), t.runs_of(scaled)), (2, 1));
    assert_eq!(rt.state_of(scaled.node()), Some(ReactiveNodeState::Clean));

    // 3 -> 4: the parity changes, and so what depends on it is computed again
    t.a.set(&mut rt, 4);
    assert_eq!(scaled.get(&mut rt, &mut t), Ok(0));
    assert_eq!((t.runs_of(parity), t.runs_of(scaled)), (3, 2));
}

#[test]
fn a_signal_does_not_compare_what_it_is_given() {
    let (mut rt, mut t) = setup();
    let parity = Memo::new(&mut rt);
    t.parity = Some(parity);
    assert_eq!(parity.get(&mut rt, &mut t), Ok(1));
    // the same value again: the signal is dirty all the same
    t.a.set(&mut rt, 1);
    assert_eq!(rt.state_of(t.a.inner.slot), Some(ReactiveNodeState::Dirty));
    assert_eq!(rt.plan(parity.node()), Pull::Stale);
    assert_eq!(parity.get(&mut rt, &mut t), Ok(1));
    assert_eq!(t.runs_of(parity), 2);
}

#[test]
fn a_diamond_recomputes_its_tip_once() {
    let (mut rt, mut t) = setup();
    let parity = Memo::new(&mut rt);
    let left = Memo::new(&mut rt);
    let right = Memo::new(&mut rt);
    let join = Memo::new(&mut rt);
    t.parity = Some(parity);
    t.left = Some(left);
    t.right = Some(right);
    t.join = Some(join);
    assert_eq!(join.get(&mut rt, &mut t), Ok(302));
    assert_eq!(t.runs_of(parity), 1);

    t.a.set(&mut rt, 2);
    assert_eq!(join.get(&mut rt, &mut t), Ok(300));
    assert_eq!(t.runs_of(parity), 2);
    assert_eq!((t.runs_of(left), t.runs_of(right), t.runs_of(join)), (2, 2, 2));
}

#[test]
fn two_readers_of_one_memo_both_see_its_change() {
    let (mut rt, mut t) = setup();
    let parity = Memo::new(&mut rt);
    let left = Memo::new(&mut rt);
    let right = Memo::new(&mut rt);
    t.parity = Some(parity);
    t.left = Some(left);
    t.right = Some(right);
    assert_eq!(left.get(&mut rt, &mut t), Ok(101));
    assert_eq!(right.get(&mut rt, &mut t), Ok(201));

    t.a.set(&mut rt, 2);
    // the first reader brings the shared memo up to date ...
    assert_eq!(left.get(&mut rt, &mut t), Ok(100));
    assert_eq!(rt.state_of(parity.node()), Some(ReactiveNodeState::Clean));
    // ... and the second one still learns that it has changed
    assert_eq!(rt.plan(right.node()), Pull::Stale);
    assert_eq!(right.get(&mut rt, &mut t), Ok(200));
    assert_eq!(t.runs_of(parity), 2);
}

#[test]
fn sources_that_are_no_longer_read_are_dropped() {
    let (mut rt, mut t) = setup();
    let branchy = Memo::new(&mut rt);
    t.branchy = Some(branchy);
    assert_eq!(branchy.get(&mut rt, &mut t), Ok(7));
    t.b.set(&mut rt, 8);
    assert_eq!(branchy.get(&mut rt, &mut t), Ok(8));
    assert_eq!(t.runs_of(branchy), 2);

    // take the other branch: `b` is not read any more
    t.a.set(&mut rt, 0);
    assert_eq!(branchy.get(&mut rt, &mut t), Ok(-1));
    assert_eq!(t.runs_of(branchy), 3);
    t.b.set(&mut rt, 9);
    assert_eq!(rt.plan(branchy.node()), Pull::Fresh);
    assert_eq!(branchy.get(&mut rt, &mut t), Ok(-1));
    assert_eq!(t.runs_of(branchy), 3);

    // and back
    t.a.set(&mut rt, 1);
    assert_eq!(branchy.get(&mut rt, &mut t), Ok(9));
    t.b.set(&mut rt, 10);
    assert_eq!(branchy.get(&mut rt, &mut t), Ok(10));
}

#[test]
fn untracked_reads_leave_no_edge() {
    let (mut rt, mut t) = setup();
    let hidden = Memo::new(&mut rt);
    t.hidden = Some(hidden);
    assert_eq!(hidden.get(&mut rt, &mut t), Ok(8));
    t.b.set(&mut rt, 100);
    assert_eq!(rt.plan(hidden.node()), Pull::Fresh);
    assert_eq!(hidden.get(&mut rt, &mut t), Ok(8));
    t.a.set(&mut rt, 2);
    assert_eq!(hidden.get(&mut rt, &mut t), Ok(102));
    assert_eq!(t.runs_of(hidden), 2);
}

#[test]
fn untrack_puts_the_observer_back() {
    let mut rt: Runtime<i64> = Runtime::new();
    let a = Signal::new(&mut rt, 1);
    rt.set_observer(Some(AnySubscriber(17)));
    let seen = untrack(&mut rt, |rt: &mut Runtime<i64>| {
        assert_eq!(rt.observer(), None);
        a.get(rt)
    });
    assert_eq!(seen, Some(1));
    assert_eq!(rt.observer(), Some(AnySubscriber(17)));
}

#[test]
fn a_memo_that_reads_itself_gets_a_cycle_error() {
    let (mut rt, mut t) = setup();
    let selfish = Memo::new(&mut rt);
    t.selfish = Some(selfish);
    assert_eq!(selfish.get(&mut rt, &mut t), Ok(1));
    assert_eq!(t.inner_error, Some(ReactiveError::Cycle));
    assert_eq!(t.runs_of(selfish), 1);
}

#[test]
fn reads_of_what_is_gone_are_empty() {
    let (mut rt, mut t) = setup();
    let parity = Memo::new(&mut rt);
    t.parity = Some(parity);
    assert_eq!(parity.get(&mut rt, &mut t), Ok(1));

    parity.dispose(&mut rt);
    assert_eq!(parity.get(&mut rt, &mut t), Err(ReactiveError::Disposed));
    assert_eq!(parity.peek(&rt), None);
    parity.dispose(&mut rt);
    assert_eq!(parity.get(&mut rt, &mut t), Err(ReactiveError::Disposed));

    let a = t.a;
    a.dispose(&mut rt);
    assert_eq!(a.get(&mut rt), None);
    assert_eq!(a.get_untracked(&rt), None);
    assert!(!a.set(&mut rt, 5));
    assert_eq!(a.read_only().get(&rt), None);
    a.dispose(&mut rt);
    assert_eq!(a.get(&mut rt), None);

    // a handle that never named anything
    let nowhere = Memo { inner: tachy_reaccy::Stored::new(999) };
    assert_eq!(nowhere.get(&mut rt, &mut t), Err(ReactiveError::Disposed));
    // a signal is no memo
    let wrong = Memo { inner: t.b.inner };
    assert_eq!(wrong.get(&mut rt, &mut t), Err(ReactiveError::Disposed));
    assert_eq!(rt.plan(999), Pull::Absent);
}

#[test]
fn a_disposed_source_is_cut_out_of_the_graph() {
    let (mut rt, mut t) = setup();
    let branchy = Memo::new(&mut rt);
    t.branchy = Some(branchy);
    assert_eq!(branchy.get(&mut rt, &mut t), Ok(7));
    t.a.set(&mut rt, 0);
    assert_eq!(branchy.get(&mut rt, &mut t), Ok(-1));
    // the memo reads `a` only: `b` can go without anybody noticing
    t.b.dispose(&mut rt);
    assert_eq!(rt.plan(branchy.node()), Pull::Fresh);
    assert_eq!(branchy.get(&mut rt, &mut t), Ok(-1));
    assert!(!rt.is_a(t.b.inner.slot, NodeKind::Signal));
}

#[test]
fn a_signal_reports_a_write_once() {
    let mut rt: Runtime<i64> = Runtime::new();
    let a = Signal::new(&mut rt, 1);
    let cell = a.cell();
    assert!(!cell.update_if_necessary(&mut rt));
    a.set(&mut rt, 2);
    assert!(cell.update_if_necessary(&mut rt));
    assert_eq!(rt.state_of(cell.node), Some(ReactiveNodeState::Clean));
    assert!(!cell.update_if_necessary(&mut rt));
}

#[test]
fn signal_views_share_one_cell() {
    let mut rt: Runtime<i64> = Runtime::new();
    let (read, write) = tachy_reaccy::signal(&mut rt, 5);
    let cell = read.get(&rt).unwrap();
    assert_eq!(cell.try_get(&mut rt), Some(5));
    assert!(write.set(&mut rt, 6));
    assert_eq!(cell.try_get(&mut rt), Some(6));
    assert_eq!(cell.try_with_untracked(&rt, |v: &i64| *v * 2), Some(12));

    let whole = Signal { inner: read.inner };
    assert!(whole.update(&mut rt, |v: i64| v + 1));
    assert_eq!(whole.get_untracked(&rt), Some(7));
    assert_eq!(whole.with(&mut rt, |v: &i64| *v + 1), Some(8));
    assert_eq!(whole.with_untracked(&rt, |v: &i64| *v + 2), Some(9));

    write.dispose(&mut rt);
    assert_eq!(read.get(&rt), None);
    assert!(!whole.update(&mut rt, |v: i64| v + 1));
}

#[test]
fn subscribers_can_be_added_and_removed_by_hand() {
    let (mut rt, mut t) = setup();
    let parity = Memo::new(&mut rt);
    t.parity = Some(parity);
    assert_eq!(parity.get(&mut rt, &mut t), Ok(1));
    let other = t.b.read_only().get(&rt).unwrap();

    // `b` is no source of the memo: a write to it changes nothing
    t.b.set(&mut rt, 8);
    assert_eq!(rt.plan(parity.node()), Pull::Fresh);

    other.add_subscriber(&mut rt, parity.to_any_subscriber());
    t.b.set(&mut rt, 9);
    assert_eq!(rt.plan(parity.node()), Pull::Stale);
    assert_eq!(parity.get(&mut rt, &mut t), Ok(1));
    // the run has read `a` only, so the edge from `b` is gone again
    t.b.set(&mut rt, 10);
    assert_eq!(rt.plan(parity.node()), Pull::Fresh);

    let source = t.a.read_only().get(&rt).unwrap();
    source.remove_subscriber(&mut rt, &parity.to_any_subscriber());
    t.a.set(&mut rt, 2);
    assert_eq!(rt.plan(parity.node()), Pull::Fresh);

    source.add_subscriber(&mut rt, parity.to_any_subscriber());
    source.clear_subscribers(&mut rt);
    t.a.set(&mut rt, 3);
    assert_eq!(rt.plan(parity.node()), Pull::Fresh);

    source.add_subscriber(&mut rt, parity.to_any_subscriber());
    source.mark_subscribers_check(&mut rt);
    assert_eq!(rt.state_of(parity.node()), Some(ReactiveNodeState::Check));
    source.mark_dirty(&mut rt);
    assert_eq!(rt.state_of(source.0.node), Some(ReactiveNodeState::Dirty));
    source.mark_check(&mut rt);
    assert_eq!(rt.state_of(source.0.node), Some(ReactiveNodeState::Dirty));
}

#[test]
fn a_memo_in_doubt_recomputes_when_a_source_answers_changed() {
    let (mut rt, mut t) = setup();
    let parity = Memo::new(&mut rt);
    t.parity = Some(parity);
    assert_eq!(parity.get(&mut rt, &mut t), Ok(1));

    // `b` was written before the memo came to depend on it
    t.b.set(&mut rt, 8);
    t.b.read_only().get(&rt).unwrap().add_subscriber(&mut rt, parity.to_any_subscriber());
    parity.mark_check(&mut rt);
    assert_eq!(rt.plan(parity.node()), Pull::Unsure);
    assert_eq!(parity.update_if_necessary(&mut rt, &mut t), Ok(false));
    // the first source, `a`, was clean; the second answered "changed", so
    // the memo ran, to the value it had
    assert_eq!(t.runs_of(parity), 2);
    assert_eq!(rt.plan(parity.node()), Pull::Fresh);
    assert_eq!(rt.state_of(t.b.inner.slot), Some(ReactiveNodeState::Clean));

    // with clean sources a memo in doubt settles without a run
    parity.mark_check(&mut rt);
    assert_eq!(parity.get(&mut rt, &mut t), Ok(1));
    assert_eq!(t.runs_of(parity), 2);
}

#[test]
fn the_observer_slot() {
    let mut observer = Observer::new();
    assert_eq!(observer.get(), None);
    assert!(!observer.is(&AnySubscriber(3)));
    observer.set(Some(AnySubscriber(3)));
    assert_eq!(observer.get(), Some(AnySubscriber(3)));
    assert!(observer.is(&AnySubscriber(3)));
    assert!(!observer.is(&AnySubscriber(4)));
    assert_eq!(observer.take(), Some(AnySubscriber(3)));
    assert_eq!(observer.get(), None);
    assert_eq!(observer.take(), None);
}
