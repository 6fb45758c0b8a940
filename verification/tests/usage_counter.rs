use bytifex_utils::sync::usage_counter::{count_is_dropped, count_is_last, UsageCounter};

#[test]
fn usage_counter() {
    let usage_counter = UsageCounter::new();

    let watcher0 = usage_counter.watcher();
    let watcher1 = usage_counter.watcher();

    assert_eq!(usage_counter.number_of_usages(), 1);
    assert!(usage_counter.is_this_the_last());

    assert_eq!(watcher0.number_of_usages(), 1);
    assert!(watcher0.is_observed_the_last());
    assert!(!watcher0.is_observed_dropped());

    assert_eq!(watcher1.number_of_usages(), 1);
    assert!(watcher1.is_observed_the_last());
    assert!(!watcher1.is_observed_dropped());

    {
        let usage_counter = usage_counter.clone();

        assert_eq!(usage_counter.number_of_usages(), 2);
        assert!(!usage_counter.is_this_the_last());

        assert_eq!(watcher0.number_of_usages(), 2);
        assert!(!watcher0.is_observed_the_last());
        assert!(!watcher0.is_observed_dropped());

        assert_eq!(watcher1.number_of_usages(), 2);
        assert!(!watcher1.is_observed_the_last());
        assert!(!watcher1.is_observed_dropped());
    }

    assert_eq!(usage_counter.number_of_usages(), 1);
    assert!(usage_counter.is_this_the_last());

    assert_eq!(watcher0.number_of_usages(), 1);
    assert!(watcher0.is_observed_the_last());
    assert!(!watcher0.is_observed_dropped());

    assert_eq!(watcher1.number_of_usages(), 1);
    assert!(watcher1.is_observed_the_last());
    assert!(!watcher1.is_observed_dropped());

    drop(usage_counter);

    assert_eq!(watcher0.number_of_usages(), 0);
    assert!(!watcher0.is_observed_the_last());
    assert!(watcher0.is_observed_dropped());

    assert_eq!(watcher1.number_of_usages(), 0);
    assert!(!watcher1.is_observed_the_last());
    assert!(watcher1.is_observed_dropped());
}

#[test]
fn counts_are_read_as_stated() {
    assert!(count_is_last(1));
    assert!(!count_is_last(0));
    assert!(!count_is_last(2));
    assert!(count_is_dropped(0));
    assert!(!count_is_dropped(1));
}

#[test]
fn cloned_watcher_reads_the_same_token() {
    let usage_counter = UsageCounter::default();
    let watcher = usage_counter.watcher().clone();
    assert_eq!(watcher.number_of_usages(), 1);
    drop(usage_counter);
    assert!(watcher.is_observed_dropped());
}
