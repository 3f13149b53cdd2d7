use interprocess::limbo_pool::{LimboPool, MaybeReject, LIMBO_SLOTS};

fn reject_all(_s: &mut u32, acc: u64) -> MaybeReject<u64> {
    Err(acc)
}

#[test]
fn empty_pool_holds_nothing() {
    let p: LimboPool<u32> = LimboPool::default();
    assert_eq!(p.count(), 0);
    assert_eq!(p.count_including_overflow(), 0);
}

#[test]
fn sixteen_senders_fit_and_the_seventeenth_comes_back() {
    let mut p: LimboPool<String> = LimboPool::default();
    for i in 0..LIMBO_SLOTS {
        assert_eq!(p.add_sender(format!("sender {i}")), Ok(()));
        assert_eq!(p.count(), i + 1);
    }
    assert_eq!(p.add_sender(String::from("one too many")), Err(String::from("one too many")));
    assert_eq!(p.count(), 16);
    assert_eq!(p.count_including_overflow(), 17);
    for i in 0..LIMBO_SLOTS {
        assert_eq!(p.sender(i), &format!("sender {i}"));
    }
}

#[test]
fn linear_try_on_empty_pool_hands_back_the_accumulant() {
    let mut p: LimboPool<u32> = LimboPool::default();
    assert_eq!(p.linear_try(9u64, reject_all), Err(9));
}

#[test]
fn linear_try_stops_at_the_first_accepting_slot() {
    let mut p: LimboPool<u32> = LimboPool::default();
    for s in 0..5u32 {
        assert!(p.add_sender(s).is_ok());
    }
    let mut visited: Vec<u32> = Vec::new();
    let r = p.linear_try(100u64, |s: &mut u32, acc: u64| {
        visited.push(*s);
        *s += 10;
        if *s == 12 {
            Ok(())
        } else {
            Err(acc + 1)
        }
    });
    assert_eq!(r, Ok(()));
    assert_eq!(visited, vec![0, 1, 2]);
    let held: Vec<u32> = (0..p.count()).map(|i| *p.sender(i)).collect();
    assert_eq!(held, vec![10, 11, 12, 3, 4]);
    assert_eq!(p.count_including_overflow(), 5);
}

#[test]
fn linear_try_threads_the_accumulant_through_rejections() {
    let mut p: LimboPool<u32> = LimboPool::default();
    for s in 0..3u32 {
        assert!(p.add_sender(s).is_ok());
    }
    let mut offered: Vec<u64> = Vec::new();
    let r = p.linear_try(1u64, |_s: &mut u32, acc: u64| {
        offered.push(acc);
        Err(acc * 2)
    });
    assert_eq!(offered, vec![1, 2, 4]);
    assert_eq!(r, Err(8));
}

#[test]
fn create_in_empty_pool_fills_slot_zero() {
    let mut p: LimboPool<u32> = LimboPool::default();
    let mut created: Vec<(usize, u64)> = Vec::new();
    let mut full_calls = 0;
    p.linear_try_or_create(
        7u64,
        reject_all,
        |i: usize, acc: u64| {
            created.push((i, acc));
            1000 + i as u32
        },
        |_n: usize, _acc: u64| full_calls += 1,
    );
    assert_eq!(created, vec![(0, 7)]);
    assert_eq!(full_calls, 0);
    assert_eq!(p.count(), 1);
    assert_eq!(*p.sender(0), 1000);
}

#[test]
fn three_rejected_calls_create_three_senders() {
    let mut p: LimboPool<u32> = LimboPool::default();
    let mut created: Vec<usize> = Vec::new();
    let mut full_calls = 0;
    for acc in 0..3u64 {
        p.linear_try_or_create(
            acc,
            reject_all,
            |i: usize, _acc: u64| {
                created.push(i);
                i as u32
            },
            |_n: usize, _acc: u64| full_calls += 1,
        );
    }
    assert_eq!(p.count(), 3);
    assert_eq!(created, vec![0, 1, 2]);
    assert_eq!(full_calls, 0);
    assert_eq!(p.count_including_overflow(), 3);
}

#[test]
fn full_pool_hands_rejected_work_to_fullf_with_rising_numbers() {
    let mut p: LimboPool<u32> = LimboPool::default();
    for s in 0..16u32 {
        assert!(p.add_sender(s).is_ok());
    }
    let mut full_calls: Vec<(usize, u64)> = Vec::new();
    for acc in [50u64, 60u64] {
        p.linear_try_or_create(
            acc,
            reject_all,
            |_i: usize, _acc: u64| -> u32 { panic!("the pool is full") },
            |n: usize, acc: u64| full_calls.push((n, acc)),
        );
    }
    assert_eq!(full_calls, vec![(16, 50), (17, 60)]);
    assert_eq!(p.count(), 16);
    assert_eq!(p.count_including_overflow(), 18);
}

#[test]
fn accepted_work_creates_nothing() {
    let mut p: LimboPool<u32> = LimboPool::default();
    assert!(p.add_sender(1).is_ok());
    let mut other_calls = 0;
    p.linear_try_or_create(
        3u64,
        |_s: &mut u32, _acc: u64| Ok(()),
        |_i: usize, _acc: u64| {
            other_calls += 1;
            0
        },
        |_n: usize, _acc: u64| {},
    );
    assert_eq!(other_calls, 0);
    assert_eq!(p.count(), 1);
    assert_eq!(p.count_including_overflow(), 1);
}
