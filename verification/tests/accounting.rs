use timely::capability::mint_capability;
use timely::progress::CountMap;
use timely::progress::Product;
use timely::progress::Timestamp;

fn net(deltas: &Vec<(u64, i64)>, t: u64) -> i64 {
    let mut sum = 0;
    for &(time, delta) in deltas.iter() {
        if time == t {
            sum += delta;
        }
    }
    sum
}

#[test]
fn count_map_update_accumulates() {
    let mut map: CountMap<u64> = CountMap::new();
    assert_eq!(map.update(&3, 2), 2);
    assert_eq!(map.update(&3, 5), 7);
    assert_eq!(map.update(&4, -1), -1);
    assert_eq!(map.count_of(&3), 7);
    assert_eq!(map.count_of(&4), -1);
    assert_eq!(map.count_of(&5), 0);
}

#[test]
fn count_map_removes_zero_entries() {
    let mut map: CountMap<u64> = CountMap::new();
    map.update(&9, 4);
    map.update(&9, -4);
    assert!(map.is_empty());
    let drained = map.drain();
    assert_eq!(drained.len(), 0);
}

#[test]
fn drain_twice_yields_empty() {
    let mut map: CountMap<u64> = CountMap::new();
    map.update(&1, 1);
    map.update(&2, -3);
    let first = map.drain();
    assert_eq!(net(&first, 1), 1);
    assert_eq!(net(&first, 2), -3);
    let second = map.drain();
    assert_eq!(second.len(), 0);
}

#[test]
fn mint_and_release_cancel() {
    let mut internal: CountMap<u64> = CountMap::new();
    let cap = mint_capability(5u64, &mut internal);
    assert_eq!(cap.time(), 5);
    assert_eq!(internal.count_of(&5), 1);
    cap.release(&mut internal);
    assert_eq!(internal.count_of(&5), 0);
    assert!(internal.is_empty());
}

#[test]
fn duplicate_records_independent_obligation() {
    let mut internal: CountMap<u64> = CountMap::new();
    let cap = mint_capability(2u64, &mut internal);
    let copy = cap.duplicate(&mut internal);
    assert_eq!(copy.time(), 2);
    assert_eq!(internal.count_of(&2), 2);
    cap.release(&mut internal);
    assert_eq!(internal.count_of(&2), 1);
    copy.release(&mut internal);
    assert_eq!(internal.count_of(&2), 0);
}

#[test]
fn delayed_moves_obligation_forward() {
    let mut internal: CountMap<u64> = CountMap::new();
    let cap = mint_capability(3u64, &mut internal);
    let later = cap.delayed(8u64, &mut internal);
    assert_eq!(later.time(), 8);
    assert_eq!(internal.count_of(&3), 0);
    assert_eq!(internal.count_of(&8), 1);
    later.release(&mut internal);
    assert!(internal.is_empty());
}

#[test]
fn delayed_to_same_time_is_net_noop() {
    let mut internal: CountMap<u64> = CountMap::new();
    let cap = mint_capability(6u64, &mut internal);
    let again = cap.try_delayed(6u64, &mut internal).unwrap_or_else(|_| panic!());
    assert_eq!(again.time(), 6);
    assert_eq!(internal.count_of(&6), 1);
}

#[test]
fn try_delayed_succeeds_iff_order_holds() {
    let mut internal: CountMap<u64> = CountMap::new();
    let cap = mint_capability(5u64, &mut internal);
    let cap = match cap.try_delayed(4u64, &mut internal) {
        Ok(_) => panic!("delaying backwards must fail"),
        Err(orig) => orig,
    };
    assert_eq!(cap.time(), 5);
    assert_eq!(internal.count_of(&5), 1);
    assert_eq!(internal.count_of(&4), 0);
    match cap.try_delayed(5u64, &mut internal) {
        Ok(same) => assert_eq!(same.time(), 5),
        Err(_) => panic!("delaying to the same time must succeed"),
    }
}

#[test]
fn try_delayed_fails_on_incomparable_times() {
    let mut internal: CountMap<Product<u64, u64>> = CountMap::new();
    let a = Product { outer: 1u64, inner: 2u64 };
    let b = Product { outer: 2u64, inner: 1u64 };
    let cap = mint_capability(a, &mut internal);
    match cap.try_delayed(b, &mut internal) {
        Ok(_) => panic!("incomparable delay must fail"),
        Err(orig) => {
            assert_eq!(orig.time().outer, 1);
            assert_eq!(orig.time().inner, 2);
        },
    }
    assert_eq!(internal.count_of(&a), 1);
    assert_eq!(internal.count_of(&b), 0);
}

#[test]
fn product_join_is_coordinatewise() {
    let a = Product { outer: 1u64, inner: 5u64 };
    let b = Product { outer: 3u64, inner: 2u64 };
    let j = a.join(&b);
    assert_eq!(j.outer, 3);
    assert_eq!(j.inner, 5);
    assert!(a.less_equal(&j));
    assert!(b.less_equal(&j));
    assert!(!a.less_equal(&b));
    assert!(!b.less_equal(&a));
    assert!(a.equals(&a));
    assert!(!a.equals(&b));
}

#[test]
fn u64_join_is_max() {
    assert_eq!(4u64.join(&9), 9);
    assert_eq!(9u64.join(&4), 9);
    assert!(4u64.less_equal(&4));
    assert!(!(9u64.less_equal(&4)));
}

#[test]
fn scenario_mint_clone_drop_delay() {
    let mut internal: CountMap<u64> = CountMap::new();
    let cap = mint_capability(5u64, &mut internal);
    let copy = cap.duplicate(&mut internal);
    assert_eq!(internal.count_of(&5), 2);
    cap.release(&mut internal);
    assert_eq!(internal.count_of(&5), 1);
    let later = copy.delayed(7u64, &mut internal);
    assert_eq!(later.time(), 7);
    let drained = internal.drain();
    assert_eq!(net(&drained, 5), 0);
    assert_eq!(net(&drained, 7), 1);
    assert_eq!(drained.len(), 1);
}

#[test]
fn conservation_over_an_operation_sequence() {
    let mut internal: CountMap<u64> = CountMap::new();
    let a = mint_capability(1u64, &mut internal);
    let b = mint_capability(2u64, &mut internal);
    let c = a.duplicate(&mut internal);
    let d = c.delayed(4u64, &mut internal);
    b.release(&mut internal);
    let mints = 2i64;
    let duplicates = 1i64;
    let delays = 1i64;
    let releases = 1i64;
    let drained = internal.drain();
    let mut total = 0i64;
    for &(_, delta) in drained.iter() {
        total += delta;
    }
    assert_eq!(total, (mints + duplicates + delays) - (releases + delays));
    drop(a);
    drop(d);
}
