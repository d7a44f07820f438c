use std::sync::Mutex;

use dora_rt::class::ClassId;
use dora_rt::ctxt::Context;
use dora_rt::gc::Space;
use dora_rt::object::{
    bool_array_with, byte_array_with, char_array_with, double_array_with, float_array_with,
    int_array_empty, int_array_with, long_array_with, offset_of_array_data,
    offset_of_array_length, Array, Handle, Header, Str,
};

fn live_count(ctxt: &Context) -> usize {
    let mut n = 0;
    for a in 0..1000 {
        if ctxt.gc.is_live(a) {
            n += 1;
        }
    }
    n
}

#[test]
fn header_size_and_offsets() {
    assert_eq!(Header::size(), 24);
    assert_eq!(offset_of_array_length(), 24);
    assert_eq!(offset_of_array_data(), 32);
}

#[test]
fn fresh_objects_carry_their_class_unmarked() {
    let mut ctxt = Context::new(1 << 20);
    let s = Str::from_buffer(&mut ctxt, b"hello").unwrap();
    let h = ctxt.gc.obj(s.raw()).header();
    assert_eq!(h.vtblptr(), ctxt.primitive_classes.str_class.0);
    assert!(!h.marked());
    let p = Str::from_buffer_in_perm(&mut ctxt, b"perm");
    assert_eq!(ctxt.gc.obj(p.raw()).header().vtblptr(), ctxt.primitive_classes.str_class.0);
    assert!(!ctxt.gc.obj(p.raw()).header().marked());
    let a = int_array_with(&mut ctxt, 3, 9).unwrap();
    assert_eq!(ctxt.gc.obj(a.raw()).header().vtblptr(), ctxt.primitive_classes.int_array.0);
    assert!(!ctxt.gc.obj(a.raw()).header().marked());
    let cls = ctxt.add_class(40, vec![24, 32]).unwrap();
    let o = dora_rt::stdlib::gc_alloc(&mut ctxt, cls).unwrap();
    assert_eq!(ctxt.gc.obj(o).header().vtblptr(), cls.0);
    assert!(!ctxt.gc.obj(o).header().marked());
}

fn check_int_array(n: usize) {
    let mut ctxt = Context::new(1 << 20);
    let a = int_array_with(&mut ctxt, n, -5).unwrap();
    assert_eq!(Array::len(&ctxt, a), n);
    for i in 0..n {
        assert_eq!(Array::get(&ctxt, a, i), -5);
    }
    assert_eq!(Array::size(&ctxt, a), 32 + 4 * n);
}

#[test]
fn array_fill_empty() {
    check_int_array(0);
}

#[test]
fn array_fill_one() {
    check_int_array(1);
}

#[test]
fn array_fill_thousand() {
    check_int_array(1000);
}

#[test]
fn arrays_of_every_element_type() {
    let mut ctxt = Context::new(1 << 20);
    let b = bool_array_with(&mut ctxt, 4, true).unwrap();
    assert!(Array::get(&ctxt, b, 3));
    assert_eq!(Array::size(&ctxt, b), 36);
    let y = byte_array_with(&mut ctxt, 2, 0xab).unwrap();
    assert_eq!(Array::get(&ctxt, y, 1), 0xab);
    assert_eq!(ctxt.gc.obj(y.raw()).header().vtblptr(), ctxt.primitive_classes.byte_array.0);
    let c = char_array_with(&mut ctxt, 2, 'x').unwrap();
    assert_eq!(Array::get(&ctxt, c, 0), 'x');
    assert_eq!(Array::size(&ctxt, c), 40);
    let l = long_array_with(&mut ctxt, 3, -7).unwrap();
    assert_eq!(Array::get(&ctxt, l, 2), -7);
    assert_eq!(Array::size(&ctxt, l), 56);
    let f = float_array_with(&mut ctxt, 2, 1.5f32.to_bits()).unwrap();
    assert_eq!(f32::from_bits(Array::get(&ctxt, f, 1)), 1.5);
    let d = double_array_with(&mut ctxt, 1, 2.25f64.to_bits()).unwrap();
    assert_eq!(f64::from_bits(Array::get(&ctxt, d, 0)), 2.25);
    let e = int_array_empty(&mut ctxt).unwrap();
    assert_eq!(Array::len(&ctxt, e), 0);
}

#[test]
fn string_round_trip() {
    let mut ctxt = Context::new(1 << 20);
    let b: &[u8] = b"dora";
    let s = Str::from_buffer(&mut ctxt, b).unwrap();
    assert_eq!(Str::len(&ctxt, s), 4);
    let d = Str::data(&ctxt, s);
    assert_eq!(&d[0..4], b);
    assert_eq!(d[4], 0);
    assert_eq!(Str::size(&ctxt, s), 24 + 8 + 4 + 1);
    let e = Str::from_buffer(&mut ctxt, b"").unwrap();
    assert_eq!(Str::len(&ctxt, e), 0);
    assert_eq!(Str::data(&ctxt, e), vec![0]);
}

#[test]
fn string_concat() {
    let mut ctxt = Context::new(1 << 20);
    let a = Str::from_buffer(&mut ctxt, b"foo").unwrap();
    let b = Str::from_buffer_in_perm(&mut ctxt, b"bar!");
    let c = Str::concat(&mut ctxt, a, b).unwrap();
    assert_eq!(Str::len(&ctxt, c), 7);
    assert_eq!(Str::data(&ctxt, c), b"foobar!\0".to_vec());
    assert_eq!(ctxt.gc.space_of(c.raw()), Space::Heap);
}

#[test]
fn out_of_memory_is_none() {
    let mut ctxt = Context::new(40);
    assert!(Str::from_buffer(&mut ctxt, b"0123456789").is_none());
    assert!(Str::from_buffer(&mut ctxt, b"ab").is_some());
    assert!(int_array_with(&mut ctxt, 100, 1).is_none());
}

#[test]
fn full_heap_is_collected_before_failing() {
    let mut ctxt = Context::new(40);
    let a = Str::from_buffer(&mut ctxt, b"abc").unwrap();
    assert_eq!(a.raw(), 1);
    // nothing is rooted, so the first string is reclaimed to make room
    let b = Str::from_buffer(&mut ctxt, b"xyz").unwrap();
    assert!(!ctxt.gc.is_live(1));
    assert_eq!(Str::data(&ctxt, b), b"xyz\0".to_vec());
}

#[test]
fn collect_twice_reclaims_nothing_more() {
    let mut ctxt = Context::new(1 << 20);
    let a = Str::from_buffer(&mut ctxt, b"kept").unwrap();
    let _b = Str::from_buffer(&mut ctxt, b"dropped").unwrap();
    let _p = Str::from_buffer_in_perm(&mut ctxt, b"perm");
    ctxt.gc.add_root(a.raw());
    ctxt.gc.collect(&ctxt.classes);
    assert_eq!(live_count(&ctxt), 2);
    assert!(ctxt.gc.is_live(a.raw()));
    assert!(!ctxt.gc.obj(a.raw()).header().marked());
    ctxt.gc.collect(&ctxt.classes);
    assert_eq!(live_count(&ctxt), 2);
    assert!(!ctxt.gc.obj(a.raw()).header().marked());
}

fn pair(ctxt: &mut Context) -> (ClassId, usize, usize) {
    let cls = ctxt.add_class(32, vec![24]).unwrap();
    let a = dora_rt::stdlib::gc_alloc(ctxt, cls).unwrap();
    let b = dora_rt::stdlib::gc_alloc(ctxt, cls).unwrap();
    ctxt.gc.set_field(&ctxt.classes, a, 24, b);
    ctxt.gc.set_field(&ctxt.classes, b, 24, a);
    (cls, a, b)
}

#[test]
fn rooted_cycle_survives() {
    let mut ctxt = Context::new(1 << 20);
    let (cls, a, b) = pair(&mut ctxt);
    assert_eq!(ctxt.gc.obj(a).field(&ctxt.classes[cls.0], 24), b);
    ctxt.gc.add_root(a);
    ctxt.gc.collect(&ctxt.classes);
    assert!(ctxt.gc.is_live(a));
    assert!(ctxt.gc.is_live(b));
    assert_eq!(ctxt.gc.obj(b).field(&ctxt.classes[cls.0], 24), a);
}

#[test]
fn unrooted_cycle_is_reclaimed() {
    let mut ctxt = Context::new(1 << 20);
    let (_cls, a, b) = pair(&mut ctxt);
    ctxt.gc.collect(&ctxt.classes);
    assert!(!ctxt.gc.is_live(a));
    assert!(!ctxt.gc.is_live(b));
}

#[test]
fn permanent_objects_survive_collections() {
    let mut ctxt = Context::new(1 << 20);
    let p = Str::from_buffer_in_perm(&mut ctxt, b"interned");
    for _ in 0..5 {
        dora_rt::stdlib::gc_collect(&mut ctxt);
    }
    assert!(ctxt.gc.is_live(p.raw()));
    assert_eq!(Str::data(&ctxt, p), b"interned\0".to_vec());
}

#[test]
fn allocations_get_distinct_addresses() {
    let mut ctxt = Context::new(1 << 20);
    let mut seen = Vec::new();
    for i in 0..50 {
        let a = int_array_with(&mut ctxt, i, 0).unwrap().raw();
        assert!(!seen.contains(&a));
        seen.push(a);
    }
}

#[test]
fn reference_fields_are_visited_in_order() {
    let mut ctxt = Context::new(1 << 20);
    let cls = ctxt.add_class(48, vec![40, 24]).unwrap();
    let o = dora_rt::stdlib::gc_alloc(&mut ctxt, cls).unwrap();
    ctxt.gc.set_field(&ctxt.classes, o, 24, 7);
    ctxt.gc.set_field(&ctxt.classes, o, 32, 8);
    ctxt.gc.set_field(&ctxt.classes, o, 40, 9);
    let refs = ctxt.gc.obj(o).visit_reference_fields(&ctxt.classes[cls.0]);
    assert_eq!(refs, vec![9, 7]);
    assert_eq!(ctxt.gc.obj(o).size(&ctxt.classes), 48);
}

#[test]
fn bad_class_layouts_are_refused() {
    let mut ctxt = Context::new(1 << 20);
    assert!(ctxt.add_class(20, vec![]).is_none());
    assert!(ctxt.add_class(33, vec![]).is_none());
    assert!(ctxt.add_class(32, vec![28]).is_none());
    assert!(ctxt.add_class(32, vec![32]).is_none());
    assert_eq!(ctxt.add_class(32, vec![24]), Some(ClassId(8)));
}

#[test]
fn handles_copy() {
    let h: Handle<Str> = Handle::from_raw(5);
    let g = h;
    assert_eq!(h.raw(), g.raw());
}

#[test]
fn array_elements_can_be_written() {
    let mut ctxt = Context::new(1 << 20);
    let a = long_array_with(&mut ctxt, 4, 1).unwrap();
    Array::set(&mut ctxt, a, 2, 99);
    assert_eq!(Array::data(&ctxt, a), vec![1, 1, 99, 1]);
    assert_eq!(Array::header(&ctxt, a).vtblptr(), ctxt.primitive_classes.long_array.0);
    let s = Str::from_buffer(&mut ctxt, b"h").unwrap();
    assert_eq!(Str::header(&ctxt, s).vtblptr(), ctxt.primitive_classes.str_class.0);
}

#[test]
fn interleaved_sessions_get_distinct_objects() {
    let shared = Mutex::new(Context::new(1 << 24));
    let mut all = Vec::new();
    for i in 0..50u8 {
        for t in 0..4u8 {
            let mut ctxt = shared.lock().unwrap();
            let s = Str::from_buffer(&mut ctxt, &[t, i]).unwrap();
            all.push((s.raw(), t, i));
        }
    }
    let ctxt = shared.lock().unwrap();
    let mut addrs: Vec<usize> = all.iter().map(|x| x.0).collect();
    addrs.sort();
    addrs.dedup();
    assert_eq!(addrs.len(), 200);
    for (a, t, i) in all {
        let h: Handle<Str> = Handle::from_raw(a);
        assert_eq!(Str::data(&ctxt, h), vec![t, i, 0]);
        assert!(!Str::header(&ctxt, h).marked());
        assert_eq!(Str::header(&ctxt, h).vtblptr(), ctxt.primitive_classes.str_class.0);
    }
}
