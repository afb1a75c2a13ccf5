use raytracer::pool::pool_size;
use raytracer::pool::worker_count;

#[test]
fn pool_size_is_the_number_of_processors() {
    assert_eq!(pool_size(1), 1);
    assert_eq!(pool_size(8), 8);
    assert_eq!(pool_size(4_294_967_295), 4_294_967_295);
}

#[test]
fn pool_size_is_one_at_least() {
    assert_eq!(pool_size(0), 1);
}

#[test]
fn pool_size_is_no_more_than_a_u32_holds() {
    assert_eq!(pool_size(usize::MAX), u32::MAX);
}

#[test]
fn worker_count_is_one_at_least() {
    assert!(worker_count() >= 1);
}
