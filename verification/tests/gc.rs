use rox::gc::{Gc, GcBoxHeader, GcConfig, GcError, Heap, MARK_MASK, ROOTS_MAX};
use rox::objects::{Obj, ObjUpValue};
use rox::trace::Trace;
use rox::value::Value;

fn live(heap: &Heap<Vec<Gc>>) -> Vec<usize> {
    (0..heap.slots()).filter(|&i| heap.contains(Gc { index: i })).collect()
}

// A heap of nodes that hold handles, none of them pinned, that never collects
// on its own.
fn graph(edges: &[&[usize]]) -> Heap<Vec<Gc>> {
    let mut heap = Heap::with_config(GcConfig {
        threshold: usize::MAX,
        used_space_percent: 80,
        leak_on_drop: false,
    });
    for out in edges.iter() {
        let node: Vec<Gc> = out.iter().map(|&index| Gc { index }).collect();
        let h = heap.allocate(node, &Vec::new()).unwrap();
        heap.unroot(h).unwrap();
    }
    heap
}

#[test]
fn header_counts_roots_and_keeps_the_mark_apart() {
    let mut header = GcBoxHeader::new();
    assert_eq!(header.roots(), 1);
    assert!(!header.is_marked());
    header.inc_roots();
    header.inc_roots();
    assert_eq!(header.roots(), 3);
    header.mark();
    assert!(header.is_marked());
    assert_eq!(header.roots(), 3);
    assert_eq!(header.word, MARK_MASK | 3);
    header.dec_roots();
    assert_eq!(header.roots(), 2);
    assert!(header.is_marked());
    header.unmark();
    assert!(!header.is_marked());
    assert_eq!(header.roots(), 2);
    assert_eq!(header.word, 2);
}

#[test]
fn allocation_pins_until_unrooted() {
    let mut heap: Heap<u64> = Heap::new();
    let a = heap.allocate(5, &Vec::new()).unwrap();
    let b = heap.allocate(6, &Vec::new()).unwrap();
    assert_eq!((a.index, b.index), (0, 1));
    assert_eq!(heap.get(a), Some(&5));
    assert_eq!(heap.root_count(a), Some(1));
    assert_eq!(heap.bytes_allocated(), 16);
    heap.unroot(b).unwrap();
    heap.collect(&Vec::new());
    assert_eq!(heap.get(a), Some(&5));
    assert_eq!(heap.get(b), None);
    assert_eq!(heap.bytes_allocated(), 8);
    assert_eq!(heap.collections(), 1);
    assert_eq!(heap.unroot(b), Err(GcError::Dangling));
    assert_eq!(heap.root(b), Err(GcError::Dangling));
    assert_eq!(heap.unroot(a), Ok(()));
    assert_eq!(heap.unroot(a), Err(GcError::NotRooted));
    assert_eq!(heap.root(a), Ok(()));
    assert_eq!(heap.root_count(a), Some(1));
}

#[test]
fn root_count_stops_at_its_maximum() {
    let mut heap: Heap<u64> = Heap::new();
    let a = heap.allocate(5, &Vec::new()).unwrap();
    heap.boxes[0].as_mut().unwrap().header.word = ROOTS_MAX;
    assert_eq!(heap.root(a), Err(GcError::RootOverflow));
    assert_eq!(heap.root_count(a), Some(ROOTS_MAX));
}

#[test]
fn collection_keeps_exactly_what_is_reachable() {
    // 0 -> 1 -> 2 -> 0 is a cycle; 3 -> 4; 5 points to itself; 6 -> 1.
    let mut heap = graph(&[&[1], &[2], &[0], &[4], &[], &[5], &[1]]);
    heap.collect(&vec![Gc { index: 3 }]);
    assert_eq!(live(&heap), vec![3, 4]);
    assert_eq!(heap.get(Gc { index: 3 }), Some(&vec![Gc { index: 4 }]));

    let mut heap = graph(&[&[1], &[2], &[0], &[4], &[], &[5], &[1]]);
    heap.collect(&vec![Gc { index: 6 }, Gc { index: 6 }, Gc { index: 99 }]);
    assert_eq!(live(&heap), vec![0, 1, 2, 6]);

    let mut heap = graph(&[&[1], &[2], &[0], &[4], &[], &[5], &[1]]);
    heap.root(Gc { index: 5 }).unwrap();
    heap.collect(&Vec::new());
    assert_eq!(live(&heap), vec![5]);
    assert_eq!(heap.root_count(Gc { index: 5 }), Some(1));
    assert_eq!(heap.bytes_allocated(), 24);

    let mut heap = graph(&[&[1], &[2], &[0], &[4], &[], &[5], &[1]]);
    heap.collect(&Vec::new());
    assert_eq!(live(&heap), Vec::<usize>::new());
    assert_eq!(heap.bytes_allocated(), 0);
}

#[test]
fn dangling_edges_are_ignored() {
    let mut heap = graph(&[&[1, 7], &[]]);
    heap.collect(&vec![Gc { index: 0 }]);
    assert_eq!(live(&heap), vec![0, 1]);
}

#[test]
fn freed_slots_are_used_again() {
    let mut heap = graph(&[&[], &[], &[]]);
    heap.collect(&vec![Gc { index: 1 }]);
    assert_eq!(live(&heap), vec![1]);
    // The slots were freed in the order 0, 2; the last one freed goes first.
    let a = heap.allocate(Vec::new(), &Vec::new()).unwrap();
    let b = heap.allocate(Vec::new(), &Vec::new()).unwrap();
    let c = heap.allocate(Vec::new(), &Vec::new()).unwrap();
    assert_eq!((a.index, b.index, c.index), (2, 0, 3));
    assert_eq!(heap.slots(), 4);
}

#[test]
fn allocation_collects_over_the_threshold_and_raises_it() {
    let mut heap: Heap<u64> = Heap::with_config(GcConfig {
        threshold: 20,
        used_space_percent: 50,
        leak_on_drop: false,
    });
    let mut kept = Vec::new();
    for i in 0..3u64 {
        let h = heap.allocate(i, &kept).unwrap();
        heap.unroot(h).unwrap();
        kept.push(h);
    }
    // 24 bytes are charged: the next allocation collects. Only the first box
    // is still wanted.
    assert!(heap.needs_collection());
    assert_eq!(heap.collections(), 0);
    let wanted = vec![kept[0]];
    let h = heap.allocate(9, &wanted).unwrap();
    assert_eq!(heap.collections(), 1);
    assert_eq!(heap.get(kept[0]), Some(&0));
    assert_eq!(heap.get(h), Some(&9));
    assert_eq!(heap.bytes_allocated(), 16);
    // 8 bytes were left in use, which is not more than half of 20.
    assert_eq!(heap.config.threshold, 20);

    // The next allocation stays under the threshold; the one after it finds 24
    // bytes charged and collects. With everything kept, 24 bytes stay in use:
    // more than half of 20, so the threshold becomes 24 * 100 / 50.
    let all: Vec<Gc> = (0..heap.slots()).map(|index| Gc { index }).collect();
    let a = heap.allocate(1, &all).unwrap();
    assert_eq!(heap.collections(), 1);
    assert!(heap.needs_collection());
    let b = heap.allocate(2, &all).unwrap();
    assert_eq!(heap.collections(), 2);
    assert_eq!(heap.config.threshold, 48);
    assert_eq!(heap.bytes_allocated(), 32);
    assert!(!heap.needs_collection());
    let c = heap.allocate(3, &all).unwrap();
    assert_eq!(heap.collections(), 2);
    assert_eq!(heap.bytes_allocated(), 40);
    assert!(heap.contains(a) && heap.contains(b) && heap.contains(c));
    assert_eq!((a.index, b.index, c.index), (1, 3, 4));
}

#[test]
fn default_policy() {
    let heap: Heap<u64> = Heap::new();
    assert_eq!(heap.config.threshold, 100);
    assert_eq!(heap.config.used_space_percent, 80);
    assert!(!heap.config.leak_on_drop);
    assert!(heap.finalizer_safe());
    assert_eq!(heap.slots(), 0);
}

#[test]
fn replace_swaps_the_payload() {
    let mut heap: Heap<u64> = Heap::new();
    let a = heap.allocate(5, &Vec::new()).unwrap();
    assert_eq!(heap.replace(a, 6), Ok(5));
    assert_eq!(heap.get(a), Some(&6));
    assert_eq!(heap.replace(Gc { index: 9 }, 7), Err(7));
    assert_eq!(heap.bytes_allocated(), 8);
}

#[test]
fn objects_trace_what_they_hold() {
    let open = Obj::UpValue(ObjUpValue::new(3));
    assert_eq!(open.trace(), Vec::new());
    let closed = Obj::UpValue(ObjUpValue { location: 3, closed: Some(Value::String(Gc { index: 8 })) });
    assert_eq!(closed.trace(), vec![Gc { index: 8 }]);
    let number = Obj::UpValue(ObjUpValue { location: 3, closed: Some(Value::Number(1)) });
    assert_eq!(number.trace(), Vec::new());
    let text = Obj::Str(b"hello".to_vec());
    assert_eq!(text.trace(), Vec::new());
    assert_eq!(text.footprint(), 37);
    assert_eq!(open.footprint(), 32);
    let closure = Obj::Closure(rox::objects::ObjClosure {
        function: std::rc::Rc::new(rox::objects::ObjFunction::new(b"f".to_vec())),
        obj_upvalues: vec![Gc { index: 1 }, Gc { index: 2 }],
    });
    assert_eq!(closure.trace(), vec![Gc { index: 1 }, Gc { index: 2 }]);
    assert_eq!(closure.footprint(), 48);
    let native = Obj::Native(rox::objects::ObjNative::new(b"clock".to_vec()));
    assert_eq!(native.footprint(), 37);
    assert_eq!(native.trace(), Vec::new());
}
