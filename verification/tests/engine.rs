use tachy_reaccy::graph::Graph;
use tachy_reaccy::model::{CleanupSlot, OwnerSlot, Pull};
use tachy_reaccy::seq_util::{all_clear, contains, copy_of, remove_marked, remove_value};
use tachy_reaccy::{NodeKind, Reactions, ReactiveError, ReactiveNodeState, Runtime};

#[test]
fn lists_of_identifiers() {
    let list = vec![4, 1, 7, 1, 9];
    assert!(contains(&list, 7));
    assert!(!contains(&list, 2));
    assert!(!contains(&Vec::new(), 0));
    assert_eq!(copy_of(&list), list);

    let mut without_one = list.clone();
    remove_value(&mut without_one, 1);
    assert_eq!(without_one, vec![4, 7, 9]);
    remove_value(&mut without_one, 5);
    assert_eq!(without_one, vec![4, 7, 9]);

    let mut marks = all_clear(8);
    assert_eq!(marks, vec![false; 8]);
    marks[4] = true;
    marks[7] = true;
    let mut kept = list.clone();
    remove_marked(&mut kept, &marks);
    // 9 lies beyond the marks and is kept
    assert_eq!(kept, vec![1, 1, 9]);
}

/// A diamond with a tail: 0 -> 1, 0 -> 2, 1 -> 3, 2 -> 3, 3 -> 4, and a
/// signal 5 that nobody reads.
fn diamond() -> Graph<i32> {
    let mut g: Graph<i32> = Graph::new();
    assert_eq!(g.allocate(NodeKind::Signal, ReactiveNodeState::Clean, Some(1)), 0);
    for id in 1..4 {
        assert_eq!(g.allocate(NodeKind::Memo, ReactiveNodeState::Clean, Some(0)), id);
    }
    assert_eq!(g.allocate(NodeKind::Effect, ReactiveNodeState::Clean, Some(0)), 4);
    assert_eq!(g.allocate(NodeKind::Signal, ReactiveNodeState::Clean, Some(1)), 5);
    for (source, reader) in [(0, 1), (0, 2), (1, 3), (2, 3), (3, 4)] {
        g.add_edge(source, reader);
    }
    g
}

#[test]
fn everything_downstream_is_found() {
    let g = diamond();
    assert_eq!(g.downstream(0), vec![false, true, true, true, true, false]);
    assert_eq!(g.downstream(1), vec![false, false, false, true, true, false]);
    assert_eq!(g.downstream(3), vec![false, false, false, false, true, false]);
    assert_eq!(g.downstream(4), vec![false; 6]);
    assert_eq!(g.downstream(5), vec![false; 6]);
    assert_eq!(g.downstream(99), vec![false; 6]);
}

#[test]
fn the_push_phase_marks_and_wakes() {
    let mut g = diamond();
    assert_eq!(g.write(0, 2), Some(vec![4]));
    assert_eq!(g.state_of(0), Some(ReactiveNodeState::Dirty));
    for id in 1..5 {
        assert_eq!(g.state_of(id), Some(ReactiveNodeState::Check));
    }
    assert_eq!(g.state_of(5), Some(ReactiveNodeState::Clean));
    // the direct subscribers have heard of a change, the others have not
    assert_eq!(g.plan(1), Pull::Stale);
    assert_eq!(g.plan(2), Pull::Stale);
    assert_eq!(g.plan(3), Pull::Unsure);
    assert_eq!(g.plan(5), Pull::Source);
    assert!(g.is_pending(3));
    assert!(!g.is_pending(1));

    // nobody reads the other signal
    assert_eq!(g.write(5, 2), Some(vec![]));
    // a memo is no signal
    assert_eq!(g.write(1, 2), None);
    assert_eq!(g.write(99, 2), None);
}

#[test]
fn edges_are_kept_on_both_ends() {
    let mut g = diamond();
    assert_eq!(g.sources_of(3), vec![1, 2]);
    assert_eq!(g.nodes[1].subscribers, vec![3]);

    // twice is once
    g.add_edge(1, 3);
    assert_eq!(g.sources_of(3), vec![1, 2]);
    // no edge into a signal, out of an effect, or to oneself
    g.add_edge(1, 0);
    g.add_edge(4, 3);
    g.add_edge(3, 3);
    g.add_edge(1, 99);
    assert_eq!(g.sources_of(0), Vec::<usize>::new());
    assert_eq!(g.sources_of(3), vec![1, 2]);
    assert_eq!(g.nodes[4].subscribers, Vec::<usize>::new());

    g.remove_edge(1, 3);
    assert_eq!(g.sources_of(3), vec![2]);
    assert_eq!(g.nodes[1].subscribers, Vec::<usize>::new());

    g.clear_subscribers(0);
    assert_eq!(g.sources_of(1), Vec::<usize>::new());
    assert_eq!(g.sources_of(2), Vec::<usize>::new());
    assert_eq!(g.nodes[0].subscribers, Vec::<usize>::new());

    g.clear_sources(3);
    assert_eq!(g.nodes[2].subscribers, Vec::<usize>::new());
    assert_eq!(g.sources_of(4), vec![3]);

    assert!(g.dispose_node(3));
    assert!(!g.dispose_node(3));
    assert_eq!(g.sources_of(4), Vec::<usize>::new());
    assert_eq!(g.value_of(3), None);
    assert_eq!(g.plan(3), Pull::Absent);
}

#[test]
fn the_steps_of_a_run() {
    let mut g = diamond();
    g.write(0, 2);
    assert!(!g.begin_run(0), "a signal has nothing to run");
    assert!(g.begin_run(1));
    assert!(!g.begin_run(1), "the run is under way");
    assert_eq!(g.plan(1), Pull::Busy);
    assert_eq!(g.sources_of(1), Vec::<usize>::new());
    g.add_edge(0, 1);

    // an equal value marks nothing
    assert_eq!(g.finish_run(1, 0), Some((false, vec![])));
    assert_eq!(g.plan(1), Pull::Fresh);
    assert_eq!(g.plan(3), Pull::Unsure);
    assert_eq!(g.finish_run(1, 0), None, "no run is under way");

    // a changed value tells the direct subscriber and wakes the effect
    assert!(g.begin_run(2));
    g.add_edge(0, 2);
    assert_eq!(g.finish_run(2, 5), Some((true, vec![4])));
    assert_eq!(g.value_of(2), Some(5));
    assert_eq!(g.plan(3), Pull::Stale);

    // a memo in doubt settles once its sources have been asked
    let mut calm = diamond();
    calm.mark_check(3);
    assert_eq!(calm.plan(3), Pull::Unsure);
    assert!(calm.begin_poll(3));
    assert_eq!(calm.plan(3), Pull::Busy);
    assert!(calm.is_running(3));
    calm.end_poll(3);
    assert!(!calm.is_running(3));

    // a source that answers "changed" tells the node that asked
    let mut told = diamond();
    told.tell(0);
    assert_eq!(told.plan(0), Pull::Source);
    told.tell(3);
    assert_eq!(told.state_of(3), Some(ReactiveNodeState::Check));
    assert_eq!(told.plan(3), Pull::Stale);
    assert!(!told.is_pending(3));
    assert!(calm.settle(3));
    assert!(!calm.settle(3));
    assert_eq!(calm.plan(3), Pull::Fresh);
    assert!(calm.amend(3, 9));
    assert_eq!(calm.value_of(3), Some(9));
    assert_eq!(calm.with_value(3, |v: &i32| *v + 1), Some(10));
}

#[test]
fn notices_by_hand() {
    let mut g = diamond();
    assert_eq!(g.mark_check(0), Vec::<usize>::new());
    assert_eq!(g.state_of(0), Some(ReactiveNodeState::Clean));
    assert_eq!(g.mark_check(3), vec![4]);
    assert_eq!(g.state_of(3), Some(ReactiveNodeState::Check));
    assert_eq!(g.state_of(1), Some(ReactiveNodeState::Clean));
    assert_eq!(g.mark_dirty(1), vec![4]);
    assert_eq!(g.state_of(1), Some(ReactiveNodeState::Dirty));
    assert_eq!(g.mark_check(4), vec![4]);
    assert_eq!(g.mark_dirty(4), vec![4]);
    assert_eq!(g.mark_dirty(99), Vec::<usize>::new());
    assert!(!g.poll_signal(0));
    g.write(0, 3);
    assert!(g.poll_signal(0));
    assert!(!g.poll_signal(0));
}

#[test]
fn scopes_in_the_graph() {
    let mut g: Graph<i32> = Graph::new();
    assert_eq!(g.on_cleanup(), None);
    let outer = g.new_owner();
    assert_eq!(g.enter_owner(Some(outer)), None);
    let inner = g.new_owner();
    let a = g.allocate(NodeKind::Signal, ReactiveNodeState::Clean, Some(1));
    assert_eq!(g.on_cleanup(), Some(0));
    assert_eq!(g.enter_owner(Some(inner)), Some(outer));
    let b = g.allocate(NodeKind::Signal, ReactiveNodeState::Clean, Some(2));
    assert_eq!(g.on_cleanup(), Some(1));
    // a scope that does not exist is refused
    assert_eq!(g.enter_owner(Some(7)), Some(inner));
    assert_eq!(g.current_owner, Some(inner));
    assert_eq!(g.enter_owner(None), Some(inner));
    let free = g.allocate(NodeKind::Signal, ReactiveNodeState::Clean, Some(3));

    assert_eq!(g.owners, vec![
        OwnerSlot { parent: None, disposed: false },
        OwnerSlot { parent: Some(0), disposed: false },
    ]);
    assert_eq!(g.subtree(outer), vec![true, true]);
    assert_eq!(g.subtree(inner), vec![false, true]);
    assert_eq!(g.subtree(9), vec![false, false]);

    assert_eq!(g.dispose_owner(inner), vec![1]);
    assert!(g.is_disposed(inner));
    assert!(!g.is_disposed(outer));
    assert!(g.is_live(a) && !g.is_live(b) && g.is_live(free));
    assert_eq!(g.cleanups, vec![
        CleanupSlot { owner: 0, pending: true },
        CleanupSlot { owner: 1, pending: false },
    ]);
    assert_eq!(g.dispose_owner(outer), vec![0]);
    assert_eq!(g.dispose_owner(outer), Vec::<usize>::new());
    assert!(!g.is_live(a) && g.is_live(free));
    assert_eq!(g.len(), 3);
}

struct Fixed(i32);

impl Reactions<i32> for Fixed {
    fn run(&mut self, _rt: &mut Runtime<i32>, _node: usize, previous: Option<i32>) -> i32 {
        previous.unwrap_or(0) + self.0
    }

    fn cleanup(&mut self, _rt: &mut Runtime<i32>, _token: usize) {}
}

#[test]
fn a_run_by_hand() {
    let mut rt: Runtime<i32> = Runtime::new();
    let mut fns = Fixed(3);
    let signal = rt.create_signal(1);
    let memo = rt.create_memo();
    assert_eq!((rt.node_count(), rt.owner_count(), rt.cleanup_count()), (2, 0, 0));
    assert_eq!(rt.recompute(&mut fns, signal), Err(ReactiveError::Disposed));
    assert_eq!(rt.recompute(&mut fns, 9), Err(ReactiveError::Disposed));
    assert_eq!(rt.recompute(&mut fns, memo), Ok(true));
    assert_eq!(rt.peek(memo), Some(3));
    assert_eq!(rt.recompute(&mut fns, memo), Ok(true));
    assert_eq!(rt.peek(memo), Some(6));
    fns.0 = 0;
    assert_eq!(rt.recompute(&mut fns, memo), Ok(false));
    assert_eq!(rt.with_value(memo, |v: &i32| *v * 2), Some(12));
    assert_eq!(rt.with_value_mut(memo, |v: i32| (v + 1, v)), Some(6));
    assert_eq!(rt.peek(memo), Some(7));
    assert_eq!(rt.update_if_necessary(&mut fns, 9), Err(ReactiveError::Disposed));
    assert_eq!(rt.update_if_necessary(&mut fns, memo), Ok(false));
    rt.well_formed();
}
