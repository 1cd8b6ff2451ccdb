use tachy_reaccy::{Memo, Reactions, Runtime, Signal};

/// `d = a + b + c`, counting how often it is computed.
struct Sum {
    a: Signal,
    b: Signal,
    c: Signal,
    calculations: u32,
}

impl Reactions<i32> for Sum {
    fn run(&mut self, rt: &mut Runtime<i32>, _node: usize, _previous: Option<i32>) -> i32 {
        self.calculations += 1;
        self.a.get(rt).unwrap() + self.b.get(rt).unwrap() + self.c.get(rt).unwrap()
    }

    fn cleanup(&mut self, _rt: &mut Runtime<i32>, _token: usize) {}
}

#[test]
fn memo_calculates_value() {
    let mut rt = Runtime::new();
    let a = Signal::new(&mut rt, 1);
    let b = Signal::new(&mut rt, 2);
    let c = Signal::new(&mut rt, 3);

    let d = Memo::new(&mut rt);
    let mut fns = Sum { a, b, c, calculations: 0 };
    assert_eq!(d.get(&mut rt, &mut fns).unwrap(), 6);
}

#[test]
fn memo_doesnt_repeat_calculation_per_get() {
    let mut rt = Runtime::new();
    let a = Signal::new(&mut rt, 1);
    let b = Signal::new(&mut rt, 2);
    let c = Signal::new(&mut rt, 3);

    let d = Memo::new(&mut rt);
    let mut fns = Sum { a, b, c, calculations: 0 };
    assert_eq!(d.get(&mut rt, &mut fns).unwrap(), 6);
    assert_eq!(d.get(&mut rt, &mut fns).unwrap(), 6);
    assert_eq!(d.get(&mut rt, &mut fns).unwrap(), 6);
    assert_eq!(fns.calculations, 1);

    a.set(&mut rt, 0);
    assert_eq!(d.get(&mut rt, &mut fns).unwrap(), 5);
    assert_eq!(fns.calculations, 2);
}

/// `c = a + b`, `d = c * 2`, `e = d + 1`.
struct Chain {
    a: Signal,
    b: Signal,
    c: Memo,
    d: Memo,
    e: Memo,
}

impl Reactions<i32> for Chain {
    fn run(&mut self, rt: &mut Runtime<i32>, node: usize, _previous: Option<i32>) -> i32 {
        let (c, d) = (self.c, self.d);
        if node == self.c.node() {
            self.a.get(rt).unwrap() + self.b.get(rt).unwrap()
        } else if node == self.d.node() {
            c.get(rt, self).unwrap() * 2
        } else {
            assert_eq!(node, self.e.node());
            d.get(rt, self).unwrap() + 1
        }
    }

    fn cleanup(&mut self, _rt: &mut Runtime<i32>, _token: usize) {}
}

#[test]
fn nested_memos() {
    let mut rt = Runtime::new();
    let a = Signal::new(&mut rt, 0); // 1
    let b = Signal::new(&mut rt, 0); // 2
    let c = Memo::new(&mut rt); // 3
    let d = Memo::new(&mut rt); // 4
    let e = Memo::new(&mut rt); // 5
    let mut fns = Chain { a, b, c, d, e };
    assert_eq!(d.get(&mut rt, &mut fns).unwrap(), 0);
    a.set(&mut rt, 5);
    assert_eq!(e.get(&mut rt, &mut fns).unwrap(), 11);
    assert_eq!(d.get(&mut rt, &mut fns).unwrap(), 10);
    assert_eq!(c.get(&mut rt, &mut fns).unwrap(), 5);
    b.set(&mut rt, 1);
    assert_eq!(e.get(&mut rt, &mut fns).unwrap(), 13);
    assert_eq!(d.get(&mut rt, &mut fns).unwrap(), 12);
    assert_eq!(c.get(&mut rt, &mut fns).unwrap(), 6);
}
