use raytracer::NearestHit;

fn select(keys: &[Option<f32>]) -> (Option<usize>, Option<u32>) {
    let mut hits = NearestHit::new();
    for key in keys {
        hits.offer(key.map(|t| t.to_bits()));
    }
    (hits.nearest(), hits.bound())
}

#[test]
fn nearest_picks_the_smaller_distance_in_either_order() {
    let (at, key) = select(&[Some(1.5), Some(0.5)]);
    assert_eq!(at, Some(1));
    assert_eq!(key, Some(0.5f32.to_bits()));
    let (at, key) = select(&[Some(0.5), Some(1.5)]);
    assert_eq!(at, Some(0));
    assert_eq!(key, Some(0.5f32.to_bits()));
}

#[test]
fn nearest_of_misses_only_is_none() {
    assert_eq!(select(&[None, None, None]), (None, None));
    assert_eq!(select(&[]), (None, None));
}

#[test]
fn nearest_skips_misses() {
    let (at, key) = select(&[None, Some(2.0), None, Some(3.0), None]);
    assert_eq!(at, Some(1));
    assert_eq!(key, Some(2.0f32.to_bits()));
}

#[test]
fn nearest_tie_goes_to_the_last_offered() {
    let (at, _) = select(&[Some(1.0), Some(0.25), Some(4.0), Some(0.25)]);
    assert_eq!(at, Some(3));
}

#[test]
fn nearest_bound_follows_the_nearest_so_far() {
    let mut hits = NearestHit::new();
    assert_eq!(hits.bound(), None);
    hits.offer(Some(9));
    assert_eq!(hits.bound(), Some(9));
    hits.offer(Some(12));
    assert_eq!(hits.bound(), Some(9));
    hits.offer(Some(3));
    assert_eq!(hits.bound(), Some(3));
    assert_eq!(hits.nearest(), Some(2));
}
