use avmore::gc::{Gc, GcAllocErr, GcRootScope, Trace};

#[derive(Debug)]
pub struct RefNamedObject<'n> {
    pub name: &'n str,
}

impl<'n> Trace for RefNamedObject<'n> {
    fn trace(&self) -> Vec<Gc> {
        Vec::new()
    }
}

#[derive(Debug)]
pub struct NamedObject {
    pub name: String,
}

impl Trace for NamedObject {
    fn trace(&self) -> Vec<Gc> {
        Vec::new()
    }
}

/// A payload that holds handles to other cells.
pub struct Node {
    pub children: Vec<Gc>,
}

impl Trace for Node {
    fn trace(&self) -> Vec<Gc> {
        self.children.clone()
    }
}

fn indirect<T: Trace>(scope: &mut GcRootScope<T>, value: T) -> Gc {
    scope.allocate(value).unwrap()
}

#[test]
fn test_gc() {
    let a: String = String::from("Hello, World!");
    {
        let mut scope: GcRootScope<NamedObject> = GcRootScope::new();
        let d: Gc;
        {
            let _b: Gc = scope.allocate(NamedObject { name: a.clone() }).unwrap();
            let c: Gc = scope.allocate(NamedObject { name: a.clone() }).unwrap();
            d = c;
        }
        assert_eq!(scope.get(d).unwrap().name, "Hello, World!");
    }
    assert_eq!(format!("{}", a), String::from("Hello, World!"));
}

#[test]
fn test_gc_ref() {
    let a: String = String::from("Hello, World!");
    {
        let mut scope: GcRootScope<RefNamedObject> = GcRootScope::new();
        let d: Gc;
        {
            let _b: Gc = scope.allocate(RefNamedObject { name: &a }).unwrap();
            let c: Gc = scope.allocate(RefNamedObject { name: &a }).unwrap();
            d = c;
        }
        assert_eq!(scope.get(d).unwrap().name, "Hello, World!");
    }
    assert_eq!(format!("{}", a), String::from("Hello, World!"));
}

#[test]
fn indirect_test_gc() {
    let a: String = String::from("Hello, World!");
    {
        let mut scope: GcRootScope<NamedObject> = GcRootScope::new();
        let d: Gc;
        {
            let _b: Gc = indirect(&mut scope, NamedObject { name: a.clone() });
            let c: Gc = indirect(&mut scope, NamedObject { name: a.clone() });
            d = c;
        }
        assert_eq!(d.index, 1);
    }
    assert_eq!(format!("{}", a), String::from("Hello, World!"));
}

#[test]
fn indirect_should_not_compile() {}

#[test]
fn indirect_test_gc_ref() {
    let a: String = String::from("Hello, World!");
    {
        let mut scope: GcRootScope<RefNamedObject> = GcRootScope::new();
        let d: Gc;
        {
            let _b: Gc = indirect(&mut scope, RefNamedObject { name: &a });
            let c: Gc = indirect(&mut scope, RefNamedObject { name: &a });
            d = c;
        }
        assert_eq!(scope.get(d).unwrap().name, "Hello, World!");
    }
    assert_eq!(format!("{}", a), String::from("Hello, World!"));
}

#[test]
fn indirect_should_not_compile_ref() {}

#[test]
fn collect_frees_unrooted_cells() {
    let mut scope: GcRootScope<NamedObject> = GcRootScope::new();
    let kept = scope.allocate(NamedObject { name: String::from("kept") }).unwrap();
    let dropped = scope.allocate(NamedObject { name: String::from("dropped") }).unwrap();
    scope.unroot(dropped);
    scope.collect_garbage();
    assert_eq!(scope.get(kept).unwrap().name, "kept");
    assert!(scope.get(dropped).is_none());
}

#[test]
fn collect_keeps_what_a_root_reaches() {
    let mut scope: GcRootScope<Node> = GcRootScope::new();
    let leaf = scope.allocate(Node { children: Vec::new() }).unwrap();
    let middle = scope.allocate(Node { children: vec![leaf] }).unwrap();
    let top = scope.allocate(Node { children: vec![middle] }).unwrap();
    let lone = scope.allocate(Node { children: Vec::new() }).unwrap();
    scope.unroot(lone);
    // The leaf and the middle cell were unrooted when they were stored.
    scope.collect_garbage();
    assert!(scope.get(top).is_some());
    assert!(scope.get(middle).is_some());
    assert!(scope.get(leaf).is_some());
    assert!(scope.get(lone).is_none());
    scope.unroot(top);
    scope.collect_garbage();
    assert!(scope.get(top).is_none());
    assert!(scope.get(middle).is_none());
    assert!(scope.get(leaf).is_none());
}

#[test]
fn rooting_again_keeps_a_cell() {
    let mut scope: GcRootScope<Node> = GcRootScope::new();
    let a = scope.allocate(Node { children: Vec::new() }).unwrap();
    let b = scope.allocate(Node { children: vec![a] }).unwrap();
    scope.root(a);
    scope.unroot(b);
    scope.collect_garbage();
    assert!(scope.get(a).is_some());
    assert!(scope.get(b).is_none());
}

#[test]
fn dangling_handle_is_refused() {
    let mut scope: GcRootScope<Node> = GcRootScope::new();
    let a = scope.allocate(Node { children: Vec::new() }).unwrap();
    scope.unroot(a);
    scope.collect_garbage();
    let r = scope.allocate(Node { children: vec![a] });
    assert_eq!(r, Err(GcAllocErr::DanglingHandle));
    let r = scope.allocate(Node { children: vec![Gc { index: 42 }] });
    assert_eq!(r, Err(GcAllocErr::DanglingHandle));
}
