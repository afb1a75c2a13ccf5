use raytracer::fps_counter::FpsCounter;

#[test]
fn new_counter_holds_no_frame_time() {
    let counter = FpsCounter::new(100);
    assert_eq!(counter.len(), 0);
    assert_eq!(counter.total_millis(), Some(0));
}

#[test]
fn record_keeps_the_times_while_there_is_room() {
    let mut counter = FpsCounter::new(3);
    counter.record(10);
    counter.record(20);
    assert_eq!(counter.len(), 2);
    assert_eq!(counter.total_millis(), Some(30));
    counter.record(30);
    assert_eq!(counter.len(), 3);
    assert_eq!(counter.total_millis(), Some(60));
}

#[test]
fn record_drops_the_oldest_time_once_the_span_is_full() {
    let mut counter = FpsCounter::new(3);
    counter.record(10);
    counter.record(20);
    counter.record(30);
    counter.record(40);
    assert_eq!(counter.len(), 3);
    assert_eq!(counter.total_millis(), Some(90));
    counter.record(50);
    assert_eq!(counter.len(), 3);
    assert_eq!(counter.total_millis(), Some(120));
}

#[test]
fn a_counter_of_span_zero_holds_the_last_time() {
    let mut counter = FpsCounter::new(0);
    counter.record(5);
    assert_eq!(counter.len(), 1);
    counter.record(7);
    assert_eq!(counter.len(), 1);
    assert_eq!(counter.total_millis(), Some(7));
}

#[test]
fn a_counter_of_span_one_holds_the_last_time() {
    let mut counter = FpsCounter::new(1);
    counter.record(5);
    counter.record(9);
    assert_eq!(counter.len(), 1);
    assert_eq!(counter.total_millis(), Some(9));
}

#[test]
fn total_millis_is_none_when_the_sum_is_too_large() {
    let mut counter = FpsCounter::new(4);
    counter.record(u128::MAX);
    assert_eq!(counter.total_millis(), Some(u128::MAX));
    counter.record(1);
    assert_eq!(counter.total_millis(), None);
    counter.record(0);
    assert_eq!(counter.total_millis(), None);
}

#[test]
fn update_adds_one_frame_time() {
    let mut counter = FpsCounter::new(2);
    counter.restart();
    counter.update();
    assert_eq!(counter.len(), 1);
    counter.update();
    counter.update();
    assert_eq!(counter.len(), 2);
    assert!(counter.total_millis().is_some());
}

#[test]
fn restart_keeps_the_frame_times() {
    let mut counter = FpsCounter::new(5);
    counter.record(16);
    counter.record(17);
    counter.restart();
    assert_eq!(counter.len(), 2);
    assert_eq!(counter.total_millis(), Some(33));
}

#[test]
fn frames_per_second_follow_from_sum_and_count() {
    let mut counter = FpsCounter::new(100);
    for _ in 0..4 {
        counter.record(20);
    }
    let sum = counter.total_millis().unwrap();
    let fps = 1000. / (sum as f32 / counter.len() as f32);
    assert_eq!(fps, 50.0);
}
