use tachy_reaccy::{EffectNotifier, Memo, Owner, Reactions, Root, Runtime, Signal};

/// Records the cleanups it is asked to run.
struct Log {
    cleaned: Vec<usize>,
}

impl Reactions<i32> for Log {
    fn run(&mut self, _rt: &mut Runtime<i32>, _node: usize, _previous: Option<i32>) -> i32 {
        0
    }

    fn cleanup(&mut self, _rt: &mut Runtime<i32>, token: usize) {
        self.cleaned.push(token);
    }
}

#[test]
fn a_scope_disposes_what_was_made_in_it() {
    let mut rt: Runtime<i32> = Runtime::new();
    let outside = Signal::new(&mut rt, 1);
    let scope = Owner::new(&mut rt);
    let inside = scope.with(&mut rt, |rt: &mut Runtime<i32>| Signal::new(rt, 2));
    assert_eq!(rt.current_owner(), None);
    assert_eq!(inside.get(&mut rt), Some(2));

    assert!(!scope.is_disposed(&rt));
    let tokens = scope.dispose(&mut rt);
    assert!(tokens.is_empty());
    assert!(scope.is_disposed(&rt));
    assert_eq!(inside.get(&mut rt), None);
    assert_eq!(outside.get(&mut rt), Some(1));
}

#[test]
fn disposing_twice_is_disposing_once() {
    let mut rt: Runtime<i32> = Runtime::new();
    let scope = Owner::new(&mut rt);
    let (signal, first, second) = scope.with(&mut rt, |rt: &mut Runtime<i32>| {
        let signal = Signal::new(rt, 2);
        (signal, rt.on_cleanup().unwrap(), rt.on_cleanup().unwrap())
    });
    assert_eq!((first, second), (0, 1));

    assert_eq!(scope.dispose(&mut rt), vec![0, 1]);
    assert_eq!(signal.get(&mut rt), None);
    assert_eq!(scope.dispose(&mut rt), Vec::<usize>::new());
    assert_eq!(signal.get(&mut rt), None);
    assert!(scope.is_disposed(&rt));

    // a scope that never was
    let nowhere = Owner { id: 42 };
    assert_eq!(nowhere.dispose(&mut rt), Vec::<usize>::new());
    assert!(!nowhere.is_disposed(&rt));
}

#[test]
fn scopes_nest() {
    let mut rt: Runtime<i32> = Runtime::new();
    let outer = Owner::new(&mut rt);
    let (inner, a, b, sibling) = outer.with(&mut rt, |rt: &mut Runtime<i32>| {
        let a = Signal::new(rt, 1);
        let inner = Owner::new(rt);
        let b = inner.with(rt, |rt: &mut Runtime<i32>| {
            assert_eq!(rt.current_owner(), Some(inner.id));
            Signal::new(rt, 2)
        });
        assert_eq!(rt.current_owner(), Some(outer.id));
        let sibling = Owner::new(rt);
        (inner, a, b, sibling)
    });

    // the inner scope alone
    inner.dispose(&mut rt);
    assert_eq!(b.get(&mut rt), None);
    assert_eq!(a.get(&mut rt), Some(1));
    assert!(!outer.is_disposed(&rt));
    assert!(!sibling.is_disposed(&rt));

    // the outer scope takes everything below it along
    outer.dispose(&mut rt);
    assert_eq!(a.get(&mut rt), None);
    assert!(outer.is_disposed(&rt));
    assert!(inner.is_disposed(&rt));
    assert!(sibling.is_disposed(&rt));
}

#[test]
fn cleanups_run_once_in_the_order_they_were_registered() {
    let mut rt: Runtime<i32> = Runtime::new();
    let mut log = Log { cleaned: Vec::new() };
    assert_eq!(rt.on_cleanup(), None);

    let outer = Owner::new(&mut rt);
    let inner = outer.with(&mut rt, |rt: &mut Runtime<i32>| Owner::new(rt));
    let other = Owner::new(&mut rt);
    assert_eq!(outer.on_cleanup(&mut rt), Some(0));
    assert_eq!(other.on_cleanup(&mut rt), Some(1));
    assert_eq!(inner.on_cleanup(&mut rt), Some(2));
    assert_eq!(outer.on_cleanup(&mut rt), Some(3));
    assert_eq!(Owner { id: 99 }.on_cleanup(&mut rt), None);
    assert_eq!(rt.current_owner(), None);

    outer.cleanup(&mut rt, &mut log);
    assert_eq!(log.cleaned, vec![0, 2, 3]);
    outer.cleanup(&mut rt, &mut log);
    assert_eq!(log.cleaned, vec![0, 2, 3]);
    other.cleanup(&mut rt, &mut log);
    assert_eq!(log.cleaned, vec![0, 2, 3, 1]);
}

#[test]
fn a_root_hands_back_what_was_built() {
    let mut rt: Runtime<i32> = Runtime::new();
    let root = Root::global_scope(&mut rt, |rt: &mut Runtime<i32>| {
        rt.on_cleanup();
        (Signal::new(rt, 4), Memo::new(rt))
    });
    let signal = root.value.0;
    assert_eq!(signal.get(&mut rt), Some(4));
    let ((signal, memo), tokens) = root.dispose(&mut rt);
    assert_eq!(tokens, vec![0]);
    assert_eq!(signal.get(&mut rt), None);
    assert_eq!(memo.peek(&rt), None);
}

#[test]
fn cleanups_can_be_run_from_a_list() {
    let mut rt: Runtime<i32> = Runtime::new();
    let mut log = Log { cleaned: Vec::new() };
    rt.run_cleanups(&mut log, &vec![]);
    assert!(log.cleaned.is_empty());
    rt.run_cleanups(&mut log, &vec![4, 2, 4]);
    assert_eq!(log.cleaned, vec![4, 2, 4]);
}

#[test]
fn a_notifier_runs_its_removers_once() {
    let mut rt: Runtime<i32> = Runtime::new();
    let mut log = Log { cleaned: Vec::new() };
    let (mut notifier, _rx) = EffectNotifier::new();
    notifier.cleanup(&mut rt, &mut log);
    assert!(log.cleaned.is_empty());

    notifier.add_remover(5);
    notifier.add_remover(3);
    notifier.cleanup(&mut rt, &mut log);
    assert_eq!(log.cleaned, vec![5, 3]);
    notifier.cleanup(&mut rt, &mut log);
    assert_eq!(log.cleaned, vec![5, 3]);
}
