use space_business::perf::Performance;

#[test]
fn durations_accumulate_per_name() {
    let mut perf = Performance::new(10);
    perf.add_duration("tick", 5);
    perf.add_duration("tick", 7);
    perf.add_duration("render", 2);
    assert_eq!(perf.history("tick"), vec![5, 7]);
    assert_eq!(perf.history("render"), vec![2]);
    assert_eq!(perf.history("unknown"), Vec::<u64>::new());
}

#[test]
fn histories_drop_their_oldest_entry_at_the_cap() {
    let mut perf = Performance::new(2);
    perf.add_duration("tick", 1);
    perf.add_duration("tick", 2);
    perf.add_duration("tick", 3);
    assert_eq!(perf.history("tick"), vec![2, 3]);
}
