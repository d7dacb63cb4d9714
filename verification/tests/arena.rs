use slot_space::space::{Index, Space, CAPACITY};

#[test]
fn round_trip_insert_get() {
    let mut s: Space<u64> = Space::with_capacity(4);
    let h = s.insert(7);
    assert_eq!(s.get(h), Some(&7));
    let h2 = s.insert(9);
    assert_eq!(s.get(h2), Some(&9));
    assert_eq!(s.get(h), Some(&7));
}

#[test]
fn staleness_after_reuse() {
    let mut s: Space<&str> = Space::with_capacity(1);
    let ha = s.insert("a");
    assert_eq!(s.remove(ha), Some("a"));
    let hb = s.insert("b");
    // The slot is reused with a different generation: the old handle is
    // rejected even though the positions coincide.
    assert_eq!(ha.into_raw_parts().0, hb.into_raw_parts().0);
    assert_ne!(ha.into_raw_parts().1, hb.into_raw_parts().1);
    assert_eq!(s.get(ha), None);
    assert_eq!(s.get(hb), Some(&"b"));
}

#[test]
fn removed_handle_stays_stale_forever() {
    let mut s: Space<u32> = Space::with_capacity(2);
    let ha = s.insert(1);
    s.remove(ha);
    // Several rounds of reuse later, the old handle still reads back absent.
    for k in 0..10u32 {
        let h = s.insert(k);
        assert_eq!(s.get(ha), None);
        s.remove(h);
    }
    assert_eq!(s.get(ha), None);
}

#[test]
fn exhaustion_then_growth() {
    let n: usize = 3;
    let mut s: Space<usize> = Space::with_capacity(n);
    let mut handles = Vec::new();
    for v in 0..n + 1 {
        handles.push(s.insert(v));
    }
    assert!(s.capacity() >= n + 1);
    for (v, h) in handles.iter().enumerate() {
        assert_eq!(s.get(*h), Some(&v));
    }
}

#[test]
fn concrete_scenario_five_into_four() {
    let mut s: Space<u64> = Space::with_capacity(4);
    let mut handles = Vec::new();
    for v in [10u64, 20, 30, 40, 50] {
        handles.push(s.insert(v));
    }
    assert_eq!(s.capacity(), 8, "exactly one doubling");
    for (h, v) in handles.iter().zip([10u64, 20, 30, 40, 50]) {
        assert_eq!(s.get(*h), Some(&v));
    }
    assert_eq!(s.len(), 5);
}

#[test]
fn exact_size_iteration() {
    let mut s: Space<u32> = Space::with_capacity(8);
    let mut handles = Vec::new();
    for v in 0..5u32 {
        handles.push(s.insert(v));
    }
    s.remove(handles[1]);
    s.remove(handles[3]);
    let mut it = s.iter();
    assert_eq!(it.len(), 3);
    assert!(it.next().is_some());
    assert_eq!(it.len(), 2, "len stays exact after partial consumption");
    assert!(it.next().is_some());
    assert_eq!(it.len(), 1);
    assert!(it.next().is_some());
    assert_eq!(it.len(), 0);
    assert!(it.next().is_none());
    assert!(it.next().is_none(), "exhausted iterators stay exhausted");
    assert_eq!(it.len(), 0);
}

#[test]
fn iter_yields_live_pairs_in_position_order() {
    let mut s: Space<u32> = Space::with_capacity(4);
    let mut handles = Vec::new();
    for v in [5u32, 6, 7] {
        handles.push(s.insert(v));
    }
    s.remove(handles[1]);
    let mut seen = Vec::new();
    let mut it = s.iter();
    while let Some((h, v)) = it.next() {
        assert_eq!(s.get(h), Some(v));
        seen.push((h.into_raw_parts().0, *v));
    }
    assert_eq!(seen, vec![(0, 5), (2, 7)]);
}

#[test]
fn order_independence_of_storage() {
    let mut s: Space<&str> = Space::with_capacity(2);
    let h0 = s.insert("first");
    let h1 = s.insert("second");
    s.remove(h0);
    // "a" reuses the freed slot; "b" and "c" force growth, so the three
    // handles are scattered across reused and fresh slots.
    let ha = s.insert("a");
    let hb = s.insert("b");
    let hc = s.insert("c");
    assert_eq!(s.get(ha), Some(&"a"));
    assert_eq!(s.get(hb), Some(&"b"));
    assert_eq!(s.get(hc), Some(&"c"));
    assert_eq!(s.get(h1), Some(&"second"));
}

#[test]
fn sentinel_distinct_over_ten_thousand_inserts() {
    let mut s: Space<u32> = Space::with_capacity(1);
    for v in 0..10_000u32 {
        let h = s.insert(v);
        assert_ne!(h, Index::default());
    }
}

#[test]
fn try_insert_full_returns_value_unclaimed() {
    let mut s: Space<String> = Space::with_capacity(1);
    s.insert(String::from("resident"));
    match s.try_insert(String::from("late")) {
        Err(v) => assert_eq!(v, "late"),
        Ok(_) => panic!("arena was full"),
    }
    assert_eq!(s.capacity(), 1, "try_insert never grows the arena");
}

#[test]
fn allocation_order_within_batch_is_ascending() {
    let mut s: Space<u8> = Space::with_capacity(3);
    let p0 = s.insert(0).into_raw_parts().0;
    let p1 = s.insert(0).into_raw_parts().0;
    let p2 = s.insert(0).into_raw_parts().0;
    assert_eq!((p0, p1, p2), (0, 1, 2));
}

#[test]
fn reserve_prepends_new_capacity() {
    let mut s: Space<u8> = Space::with_capacity(2);
    s.reserve(2);
    assert_eq!(s.capacity(), 4);
    // The most recently reserved slots are consumed before the older free
    // capacity.
    let p0 = s.insert(0).into_raw_parts().0;
    let p1 = s.insert(0).into_raw_parts().0;
    let p2 = s.insert(0).into_raw_parts().0;
    let p3 = s.insert(0).into_raw_parts().0;
    assert_eq!((p0, p1, p2, p3), (2, 3, 0, 1));
}

#[test]
fn reserve_keeps_existing_entries() {
    let mut s: Space<u32> = Space::with_capacity(2);
    let h0 = s.insert(11);
    let h1 = s.insert(22);
    s.reserve(5);
    assert_eq!(s.capacity(), 7);
    assert_eq!(s.len(), 2);
    assert_eq!(s.get(h0), Some(&11));
    assert_eq!(s.get(h1), Some(&22));
}

#[test]
fn into_iter_drains_in_position_order() {
    let mut s: Space<u32> = Space::with_capacity(4);
    let mut handles = Vec::new();
    for v in [1u32, 2, 3, 4] {
        handles.push(s.insert(v));
    }
    s.remove(handles[2]);
    let mut it = s.into_iter();
    assert_eq!(it.len(), 3);
    assert_eq!(it.next(), Some(1));
    assert_eq!(it.len(), 2);
    assert_eq!(it.next(), Some(2));
    assert_eq!(it.next(), Some(4));
    assert_eq!(it.len(), 0);
    assert_eq!(it.next(), None);
    assert_eq!(it.next(), None, "exhausted iterators stay exhausted");
}

#[test]
fn remove_stale_or_unknown_is_noop() {
    let mut s: Space<u32> = Space::with_capacity(2);
    let h = s.insert(5);
    assert_eq!(s.remove(h), Some(5));
    assert_eq!(s.remove(h), None, "second removal finds a stale handle");
    assert_eq!(s.remove(Index::from_raw_parts(99, 0)), None);
    assert_eq!(s.len(), 0);
}

#[test]
fn get_rejects_unknown_handles() {
    let mut s: Space<u32> = Space::with_capacity(2);
    let h = s.insert(5);
    let (pos, generation) = h.into_raw_parts();
    assert_eq!(s.get(Index::from_raw_parts(pos + 1, generation)), None);
    assert_eq!(s.get(Index::from_raw_parts(pos, generation + 1)), None);
    assert_eq!(s.get(Index::from_raw_parts(u32::MAX, u32::MAX)), None);
}

#[test]
fn index_access_returns_live_value() {
    let mut s: Space<u32> = Space::with_capacity(1);
    let h = s.insert(77);
    assert_eq!(*s.index(h), 77);
}

#[test]
fn replace_swaps_the_value_in_place() {
    let mut s: Space<u32> = Space::with_capacity(2);
    let h = s.insert(1);
    let other = s.insert(2);
    assert_eq!(s.replace(h, 9), 1);
    assert_eq!(s.get(h), Some(&9));
    assert_eq!(s.get(other), Some(&2));
    assert_eq!(s.len(), 2);
}

#[test]
fn raw_parts_round_trip() {
    let i = Index::from_raw_parts(3, 4);
    assert_eq!(i.into_raw_parts(), (3, 4));
}

#[test]
fn default_index_is_the_sentinel() {
    assert_eq!(Index::default().into_raw_parts(), (u32::MAX, u32::MAX));
}

#[test]
fn with_capacity_zero_still_has_one_slot() {
    let mut s: Space<u8> = Space::with_capacity(0);
    assert_eq!(s.capacity(), 1);
    let h = s.insert(1);
    assert_eq!(s.get(h), Some(&1));
}

#[test]
fn new_uses_default_capacity() {
    let s: Space<u8> = Space::new();
    assert_eq!(s.capacity(), CAPACITY);
    assert_eq!(s.len(), 0);
}

#[test]
fn handles_are_ordered_by_position_then_generation() {
    let a = Index::from_raw_parts(1, 5);
    let b = Index::from_raw_parts(2, 0);
    let c = Index::from_raw_parts(2, 3);
    assert!(a < b && b < c);
}
