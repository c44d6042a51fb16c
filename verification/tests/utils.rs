use cynthia::utils::cache_align::CacheAlignedPadding;
use cynthia::utils::colo::Colo;
use cynthia::utils::parallel::Parallel;
use cynthia::utils::rander::{Bound, Rander};
use cynthia::utils::random::random;
use cynthia::utils::read_buf::ReadBuf;

#[test]
fn colo_reuses_slot() {
    let mut colo: Colo<u8> = Colo::new();
    let a = colo.insert(1);
    let b = colo.insert(2);
    assert_eq!((a, b), (0, 1));
    assert_eq!(colo.remove(a), Some(1));
    assert_eq!(colo.next_vacant(), a);
    assert_eq!(colo.insert(3), a);
    assert_eq!(colo.get(b), Some(&2));
    assert_eq!(colo.len(), 2);
}

#[test]
fn colo_remove_twice() {
    let mut colo: Colo<&str> = Colo::new();
    let a = colo.insert("a");
    assert_eq!(colo.remove(a), Some("a"));
    assert_eq!(colo.remove(a), None);
    assert_eq!(colo.remove(17), None);
    assert!(colo.is_empty());
}

#[test]
fn colo_last_removed_is_next() {
    let mut colo: Colo<u32> = Colo::new();
    for i in 0..4 {
        assert_eq!(colo.insert(i), i as usize);
    }
    colo.remove(1);
    colo.remove(3);
    assert_eq!(colo.insert(10), 3);
    assert_eq!(colo.insert(11), 1);
    assert_eq!(colo.insert(12), 4);
}

#[test]
fn colo_limit_drops_object() {
    let mut colo: Colo<u8> = Colo::with_limited(2);
    assert_eq!(colo.insert(1), 0);
    assert_eq!(colo.insert(2), 1);
    assert_eq!(colo.insert(3), 0);
    assert_eq!(colo.len(), 2);
    assert_eq!(colo.get(0), Some(&1));
}

#[test]
fn colo_iterates_in_order() {
    let mut colo: Colo<u8> = Colo::new();
    for i in 0..4 {
        colo.insert(i);
    }
    colo.remove(2);
    let mut seen = Vec::new();
    let mut iter = colo.iter();
    while let Some((i, v)) = iter.next() {
        seen.push((i, *v));
    }
    assert_eq!(seen, vec![(0, 0), (1, 1), (3, 3)]);
    let mut taken = Vec::new();
    let mut iter = colo.into_iter();
    while let Some(pair) = iter.next() {
        taken.push(pair);
    }
    assert_eq!(taken, vec![(0, 0), (1, 1), (3, 3)]);
}

#[test]
fn colo_retain_swap_clear() {
    let mut colo: Colo<u8> = Colo::new();
    for i in 0..5 {
        colo.insert(i);
    }
    colo.retain(|_, v| *v % 2 == 0);
    assert_eq!(colo.len(), 3);
    assert_eq!(colo.get(1), None);
    colo.swap(0, 4);
    assert_eq!(colo.get(0), Some(&4));
    assert_eq!(colo.get(4), Some(&0));
    *colo.get_mut(2).unwrap() = 9;
    assert_eq!(*colo.index(2), 9);
    colo.clear();
    assert!(colo.is_empty());
    assert_eq!(colo.next_vacant(), 0);
}

#[test]
fn colo_capacity_and_reserve() {
    let mut colo: Colo<u64> = Colo::with_capacity(10);
    assert!(colo.capacity() >= 10);
    colo.reserve(100);
    assert!(colo.capacity() >= 100);
    colo.insert(1);
    colo.reserve_exact(500);
    assert!(colo.capacity() >= 501);
    colo.shrink_to_fit();
    assert_eq!(colo.get(0), Some(&1));
    assert!(colo.capacity() < 500);
}

#[test]
fn rander_u64_exact() {
    let mut r = Rander::with_seed(7);
    assert_eq!(r.u64(Bound::Unbounded, Bound::Unbounded), 5469490733665405404);
}

#[test]
fn rander_u32_exact() {
    let mut r = Rander::with_seed(7);
    let mut out = Vec::new();
    for _ in 0..4 {
        out.push(r.u32(Bound::Unbounded, Bound::Unbounded));
    }
    assert_eq!(out, vec![1273465047, 4201302492, 1760530922, 3811196712]);
}

#[test]
fn rander_below_ten_exact() {
    let mut r = Rander::with_seed(7);
    let mut out = Vec::new();
    for _ in 0..8 {
        out.push(r.u32(Bound::Unbounded, Bound::Excluded(10)));
    }
    assert_eq!(out, vec![2, 9, 4, 8, 1, 5, 2, 4]);
}

#[test]
fn rander_i8_in_range() {
    let mut r = Rander::with_seed(7);
    let mut out = Vec::new();
    for _ in 0..8 {
        out.push(r.i8(Bound::Included(-100), Bound::Included(99)));
    }
    assert_eq!(out, vec![-41, 95, -19, 77, -71, 9, -44, -11]);
    for _ in 0..1000 {
        let v = r.i16(Bound::Included(-30000), Bound::Excluded(30000));
        assert!(-30000 <= v && v < 30000);
    }
}

#[test]
fn rander_bounds() {
    let mut r = Rander::with_seed(3);
    for _ in 0..200 {
        assert_eq!(r.u8(Bound::Included(5), Bound::Included(5)), 5);
        let v = r.usize(Bound::Excluded(2), Bound::Excluded(5));
        assert!(v == 3 || v == 4);
        let w = r.u128(Bound::Included(1 << 100), Bound::Unbounded);
        assert!(w >= 1 << 100);
        let x = r.i64(Bound::Unbounded, Bound::Included(-1));
        assert!(x < 0);
        let y = r.i128(Bound::Included(-2), Bound::Included(2));
        assert!(-2 <= y && y <= 2);
        let z = r.isize(Bound::Included(0), Bound::Included(1));
        assert!(z == 0 || z == 1);
        let u = r.u16(Bound::Included(10), Bound::Included(11));
        assert!(u == 10 || u == 11);
        let i = r.i32(Bound::Included(-1), Bound::Included(1));
        assert!(-1 <= i && i <= 1);
    }
}

#[test]
fn rander_characters() {
    let mut r = Rander::with_seed(11);
    for _ in 0..500 {
        assert!(r.alphabetic().is_ascii_alphabetic());
        assert!(r.alphanumeric().is_ascii_alphanumeric());
        assert!(r.lowercase().is_ascii_lowercase());
        assert!(r.uppercase().is_ascii_uppercase());
        assert!(r.digit(16).is_digit(16));
        assert_eq!(r.digit(1), '0');
    }
}

#[test]
fn rander_bool_is_parity() {
    let mut r = Rander::with_seed(7);
    for v in [1273465047u32, 4201302492, 1760530922, 3811196712] {
        assert_eq!(r.bool(), v % 2 == 0);
    }
}

#[test]
fn rander_same_seed_same_numbers() {
    let mut a = Rander::with_seed(99);
    let mut b = Rander::with_seed(1);
    b.seed(99);
    let mut c = a.clone();
    let mut d = b.clone();
    for _ in 0..50 {
        let x = a.u64(Bound::Unbounded, Bound::Unbounded);
        assert_eq!(x, b.u64(Bound::Unbounded, Bound::Unbounded));
        let y = c.u64(Bound::Unbounded, Bound::Unbounded);
        assert_eq!(y, d.u64(Bound::Unbounded, Bound::Unbounded));
        assert_ne!(x, y);
    }
}

#[test]
fn rander_shuffle_keeps_items() {
    let mut r = Rander::with_seed(5);
    let mut v: Vec<u32> = (0..20).collect();
    r.shuffle(&mut v);
    assert_ne!(v, (0..20).collect::<Vec<u32>>());
    v.sort();
    assert_eq!(v, (0..20).collect::<Vec<u32>>());
    let mut none: Vec<u32> = Vec::new();
    r.shuffle(&mut none);
    assert!(none.is_empty());
}

#[test]
fn random_exact() {
    let mut rng = 1u32;
    assert_eq!(random(&mut rng, 100), 0);
    assert_eq!(rng, 270369);
    let mut rng = 12345u32;
    assert_eq!(random(&mut rng, 10), 7);
    assert_eq!(rng, 3336926330);
    assert_eq!(random(&mut rng, 0), 0);
    let mut zero = 0u32;
    assert_eq!(random(&mut zero, 5), 0);
    assert_eq!(zero, 0);
}

#[test]
fn cache_aligned_holds_value() {
    let mut c = CacheAlignedPadding::new(3);
    *c.get_mut() += 1;
    assert_eq!(*c.get_ref(), 4);
    assert_eq!(c.into_inner(), 4);
}

#[test]
fn parallel_results_in_order() {
    let p = Parallel::new().each(vec![1, 2, 3, 4], |x: i32| move || x * x);
    assert_eq!(p.run(), vec![1, 4, 9, 16]);
}

#[test]
fn parallel_no_jobs() {
    let p: Parallel<fn() -> u8> = Parallel::new();
    let out: Vec<u8> = p.run();
    assert!(out.is_empty());
}

#[test]
fn parallel_finish_gives_both() {
    fn one() -> u8 {
        1
    }
    fn two() -> u8 {
        2
    }
    let p: Parallel<fn() -> u8> = Parallel::new().add(one as fn() -> u8).add(two as fn() -> u8);
    let (results, last) = p.finish(|| "last");
    assert_eq!(results, vec![1, 2]);
    assert_eq!(last, "last");
}

#[test]
fn parallel_last_is_kept_back() {
    let p = Parallel::new().add('a').add('b').add('c');
    assert_eq!(p.split(), Some((vec!['a', 'b'], 'c')));
    assert_eq!(Parallel::<char>::new().split(), None);
}

#[test]
fn read_buf_put_and_advance() {
    let mut bytes = [9u8; 8];
    let mut buf = ReadBuf::uninit(&mut bytes);
    assert_eq!(buf.capacity(), 8);
    assert_eq!(buf.remaining(), 8);
    buf.put_slice(&[1, 2, 3]);
    assert_eq!(buf.filled(), &[1, 2, 3]);
    assert_eq!(buf.initialized(), &[1, 2, 3]);
    assert_eq!(buf.initialize_unfilled_to(2), &[0, 0]);
    buf.advance(2);
    assert_eq!(buf.filled(), &[1, 2, 3, 0, 0]);
    assert_eq!(buf.remaining(), 3);
    buf.initialize_unfilled()[0] = 7;
    buf.set_filled(6);
    assert_eq!(buf.filled(), &[1, 2, 3, 0, 0, 7]);
    buf.clear();
    assert_eq!(buf.filled(), &[] as &[u8]);
    assert_eq!(buf.initialized(), &[1, 2, 3, 0, 0, 7, 0, 0]);
}

#[test]
fn read_buf_keeps_what_was_there() {
    let mut bytes = [9u8; 4];
    let mut buf = ReadBuf::new(&mut bytes);
    assert_eq!(buf.initialize_unfilled(), &[9, 9, 9, 9]);
    buf.filled_mut();
    buf.initialized_mut()[3] = 1;
    assert_eq!(buf.take(2).capacity(), 2);
    assert_eq!(buf.take(20).capacity(), 4);
    buf.unfilled_mut()[0] = 5;
    buf.assume_init(1);
    buf.advance(4);
    assert_eq!(buf.filled(), &[5, 9, 9, 1]);
    assert_eq!(bytes, [5, 9, 9, 1]);
}

#[test]
fn colo_objects_are_changed_in_passing() {
    let mut colo: Colo<u32> = Colo::new();
    for i in 0..4 {
        colo.insert(10 * i);
    }
    colo.remove(1);
    let mut seen = Vec::new();
    {
        let mut walk = colo.iter_mut();
        while let Some((index, object)) = walk.next() {
            seen.push((index, *object));
            *object += 1;
        }
        assert!(walk.next().is_none());
    }
    assert_eq!(seen, vec![(0, 0), (2, 20), (3, 30)]);
    assert_eq!(colo.get(0), Some(&1));
    assert_eq!(colo.get(1), None);
    assert_eq!(colo.get(3), Some(&31));
    assert_eq!(colo.insert(7), 1);
}

#[test]
fn colo_knows_what_the_machine_can_hold() {
    assert!(Colo::<u64>::can_hold(1000));
    assert!(!Colo::<u64>::can_hold(usize::MAX));
    assert!(!Colo::<u64>::can_hold(isize::MAX as usize));
    let mut colo: Colo<u64> = Colo::new();
    assert!(Colo::<u64>::can_hold(8));
    colo.reserve_exact(8);
    assert!(colo.capacity() >= 8);
}

#[test]
fn rander_same_seed_same_answers() {
    let mut a = Rander::with_seed(31);
    let mut b = Rander::with_seed(5);
    b.u32(Bound::Unbounded, Bound::Unbounded);
    b.seed(31);
    let mut left: Vec<u32> = (0..12).collect();
    let mut right = left.clone();
    for _ in 0..20 {
        assert_eq!(
            a.u64(Bound::Included(3), Bound::Excluded(1 << 60)),
            b.u64(Bound::Included(3), Bound::Excluded(1 << 60))
        );
        assert_eq!(
            a.u128(Bound::Unbounded, Bound::Included(1 << 90)),
            b.u128(Bound::Unbounded, Bound::Included(1 << 90))
        );
        assert_eq!(a.bool(), b.bool());
        assert_eq!(a.alphanumeric(), b.alphanumeric());
        assert_eq!(a.digit(7), b.digit(7));
        a.shuffle(&mut left);
        b.shuffle(&mut right);
        assert_eq!(left, right);
    }
}

#[test]
fn read_buf_window_is_part_of_the_whole() {
    let mut bytes = [9u8; 6];
    let mut buf = ReadBuf::new(&mut bytes);
    buf.advance(1);
    {
        let mut window = buf.take(3);
        assert_eq!(window.capacity(), 3);
        assert_eq!(window.filled(), &[] as &[u8]);
        window.put_slice(&[1, 2]);
        assert_eq!(window.remaining(), 1);
    }
    assert_eq!(buf.remaining(), 5);
    assert_eq!(buf.filled(), &[9]);
    buf.advance(3);
    assert_eq!(buf.filled(), &[9, 1, 2, 9]);
    assert_eq!(bytes, [9, 1, 2, 9, 9, 9]);
}

#[test]
fn parallel_jobs_may_give_away_what_they_hold() {
    let words = vec!["a".to_string(), "b".to_string()];
    let jobs = words.into_iter().fold(Parallel::new(), |p, word| p.add(move || word));
    assert_eq!(jobs.run(), vec!["a".to_string(), "b".to_string()]);
    let (none, last) = Parallel::<fn() -> u8>::new().finish(|| 3);
    assert_eq!((none, last), (Vec::<u8>::new(), 3));
}

#[test]
fn colo_retain_remembers() {
    let mut colo: Colo<u32> = Colo::new();
    for i in 0..5 {
        colo.insert(i);
    }
    let mut seen = Vec::new();
    colo.retain(|index, object| {
        seen.push((index, *object));
        *object += 10;
        seen.len() % 2 == 1
    });
    assert_eq!(seen, vec![(0, 0), (1, 1), (2, 2), (3, 3), (4, 4)]);
    let left: Vec<Option<u32>> = (0..5).map(|i| colo.get(i).copied()).collect();
    assert_eq!(left, vec![Some(10), None, Some(12), None, Some(14)]);
}
