use benchmarks::{InvalidArgument, SizeIterator, GB, KB, MB};

fn sizes_of(entries: &[(usize, String)]) -> Vec<usize> {
    entries.iter().map(|entry| entry.0).collect()
}

#[test]
fn test_doubling_size_iter() {
    let v = SizeIterator::new(1, GB).collect();
    assert_eq!(v.len(), 31);
    assert_eq!(v[10], (KB, "1 KiB".to_owned()));
    assert_eq!(v[20], (MB, "1 MiB".to_owned()));
    assert_eq!(v[30], (GB, "1 GiB".to_owned()));
    assert_eq!(v[9], (KB / 2, "512 B".to_owned()));
    assert_eq!(v[19], (MB / 2, "512 KiB".to_owned()));
    assert_eq!(v[29], (GB / 2, "512 MiB".to_owned()));
}

#[test]
fn doubling_emits_every_power_of_two() {
    let v = SizeIterator::new(1, GB).collect();
    let expected: Vec<usize> = (0..=30).map(|k| 1usize << k).collect();
    assert_eq!(sizes_of(&v), expected);
}

#[test]
fn zero_start_is_rejected() {
    assert_eq!(
        SizeIterator::try_new(0, GB).err(),
        Some(InvalidArgument::ZeroStart)
    );
    assert_eq!(
        SizeIterator::try_new(0, 0).err(),
        Some(InvalidArgument::ZeroStart)
    );
}

#[test]
fn positive_start_is_accepted() {
    let made = SizeIterator::try_new(1, 8);
    assert!(made.is_ok());
    let v = made.ok().map(|iter| iter.collect()).unwrap_or_default();
    assert_eq!(sizes_of(&v), vec![1, 2, 4, 8]);
}

#[test]
fn small_multiplier_is_rejected() {
    assert_eq!(
        SizeIterator::new(1, GB).try_with_multiplier(0).err(),
        Some(InvalidArgument::MultiplierTooSmall)
    );
    assert_eq!(
        SizeIterator::new(1, GB).try_with_multiplier(1).err(),
        Some(InvalidArgument::MultiplierTooSmall)
    );
}

#[test]
fn multiplier_of_two_or_more_is_accepted() {
    let made = SizeIterator::new(5, 100).try_with_multiplier(2);
    assert!(made.is_ok());
    let v = made.ok().map(|iter| iter.collect()).unwrap_or_default();
    assert_eq!(sizes_of(&v), vec![5, 10, 20, 40, 80]);
}

#[test]
fn multiplier_sets_the_step() {
    let v = SizeIterator::new(3, 1000).with_multiplier(3).collect();
    assert_eq!(sizes_of(&v), vec![3, 9, 27, 81, 243, 729]);
}

#[test]
fn multiplier_keeps_position_and_bound() {
    let mut iter = SizeIterator::new(7, 100);
    assert_eq!(iter.next_size(), Some(7));
    let v = iter.with_multiplier(5).collect();
    assert_eq!(sizes_of(&v), vec![14, 70]);
}

#[test]
fn bound_is_inclusive() {
    let v = SizeIterator::new(1, 16).with_multiplier(4).collect();
    assert_eq!(sizes_of(&v), vec![1, 4, 16]);
    let v = SizeIterator::new(1, 15).with_multiplier(4).collect();
    assert_eq!(sizes_of(&v), vec![1, 4]);
}

#[test]
fn start_at_bound_emits_one_size() {
    let v = SizeIterator::new(42, 42).collect();
    assert_eq!(v, vec![(42, "42 B".to_owned())]);
}

#[test]
fn start_beyond_bound_emits_nothing() {
    assert!(SizeIterator::new(2, 1).collect().is_empty());
    assert!(SizeIterator::new(1, 0).collect().is_empty());
    let mut iter = SizeIterator::new(1024, 1023);
    assert_eq!(iter.next(), None);
    assert_eq!(iter.next_size(), None);
}

#[test]
fn sizes_grow_strictly_within_the_range() {
    let (from, to) = (5, 1_000_000);
    let v = SizeIterator::new(from, to).with_multiplier(7).collect();
    assert!(!v.is_empty());
    for pair in v.windows(2) {
        assert!(pair[0].0 < pair[1].0);
    }
    for entry in &v {
        assert!(from <= entry.0 && entry.0 <= to);
    }
}

#[test]
fn sizes_follow_the_closed_form() {
    let v = SizeIterator::new(3, 100_000).with_multiplier(10).collect();
    assert_eq!(v.len(), 5);
    for (i, entry) in v.iter().enumerate() {
        assert_eq!(entry.0, 3 * 10usize.pow(i as u32));
    }
    assert!(3 * 10usize.pow(v.len() as u32) > 100_000);
}

#[test]
fn length_is_one_more_than_the_logarithm() {
    assert_eq!(SizeIterator::new(1, GB).collect().len(), 1 + 30);
    assert_eq!(SizeIterator::new(1, GB - 1).collect().len(), 1 + 29);
    assert_eq!(SizeIterator::new(3, 1000).with_multiplier(3).collect().len(), 1 + 5);
    assert_eq!(SizeIterator::new(1000, 1999).collect().len(), 1);
}

#[test]
fn next_steps_through_the_progression() {
    let mut iter = SizeIterator::new(256, 2048).with_multiplier(4);
    assert_eq!(iter.next(), Some((256, "256 B".to_owned())));
    assert_eq!(iter.next(), Some((1024, "1 KiB".to_owned())));
    assert_eq!(iter.next(), None);
}

#[test]
fn exhausted_generator_stays_exhausted() {
    let mut iter = SizeIterator::new(1, 2);
    assert_eq!(iter.next_size(), Some(1));
    assert_eq!(iter.next_size(), Some(2));
    for _ in 0..4 {
        assert_eq!(iter.next_size(), None);
        assert_eq!(iter.next(), None);
    }
    assert!(iter.collect().is_empty());
}

#[test]
fn next_size_and_next_emit_the_same_sizes() {
    let mut plain = SizeIterator::new(1, 5000).with_multiplier(16);
    let mut labelled = SizeIterator::new(1, 5000).with_multiplier(16);
    loop {
        let size = plain.next_size();
        let entry = labelled.next();
        assert_eq!(size, entry.map(|e| e.0));
        if size.is_none() {
            break;
        }
    }
}

#[test]
fn collect_continues_from_the_current_position() {
    let mut iter = SizeIterator::new(1, 64);
    assert_eq!(iter.next_size(), Some(1));
    assert_eq!(iter.next_size(), Some(2));
    assert_eq!(sizes_of(&iter.collect()), vec![4, 8, 16, 32, 64]);
}

#[test]
fn generator_stops_at_the_largest_bound() {
    let v = SizeIterator::new(1, usize::MAX).collect();
    assert_eq!(v.len(), usize::BITS as usize);
    assert_eq!(v[v.len() - 1].0, 1usize << (usize::BITS - 1));

    let mut iter = SizeIterator::new(usize::MAX, usize::MAX).with_multiplier(usize::MAX);
    assert_eq!(iter.next_size(), Some(usize::MAX));
    assert_eq!(iter.next_size(), None);
    assert_eq!(iter.next_size(), None);

    let v = SizeIterator::new(usize::MAX / 2 + 1, usize::MAX)
        .with_multiplier(3)
        .collect();
    assert_eq!(sizes_of(&v), vec![usize::MAX / 2 + 1]);
}

#[test]
fn repeated_runs_give_the_same_entries() {
    let first = SizeIterator::new(3, GB).with_multiplier(5).collect();
    let second = SizeIterator::new(3, GB).with_multiplier(5).collect();
    assert!(!first.is_empty());
    assert_eq!(first, second);
}

#[test]
fn labels_use_binary_units() {
    let label = |size: usize| SizeIterator::new(size, size).collect()[0].1.clone();
    assert_eq!(label(1024), "1 KiB");
    assert_eq!(label(1024 * 1024), "1 MiB");
    assert_eq!(label(1024 * 1024 * 1024), "1 GiB");
    assert_eq!(label(512), "512 B");
    assert_eq!(label(1), "1 B");
    assert_eq!(label(1023), "1023 B");
    assert_eq!(label(1536), "1.50 KiB");
    assert_eq!(label(10 * 1024 * 1024), "10 MiB");
}

#[test]
fn units_are_powers_of_1024() {
    assert_eq!(KB, 1024);
    assert_eq!(MB, 1024 * KB);
    assert_eq!(GB, 1024 * MB);
}

#[test]
#[should_panic]
fn test_doubling_size_from_zero_should_panic() {
    SizeIterator::try_new(0, GB).unwrap();
}
