use raytracer::{Bounce, Path, PathEnd, PathStep};

#[test]
fn path_with_no_depth_is_dark_at_once() {
    let path = Path::new(0);
    assert_eq!(path.step(), PathStep::End(PathEnd::Dark));
}

#[test]
fn path_that_escapes_ends_at_the_sky() {
    let mut path = Path::new(3);
    assert_eq!(path.step(), PathStep::Trace);
    path.record(Bounce::Scattered);
    assert_eq!(path.step(), PathStep::Trace);
    path.record(Bounce::Missed);
    assert_eq!(path.step(), PathStep::End(PathEnd::Sky));
}

#[test]
fn path_absorbed_is_dark() {
    let mut path = Path::new(5);
    path.record(Bounce::Absorbed);
    assert_eq!(path.step(), PathStep::End(PathEnd::Dark));
}

#[test]
fn path_out_of_bounces_is_dark() {
    let mut path = Path::new(2);
    path.record(Bounce::Scattered);
    assert_eq!(path.step(), PathStep::Trace);
    path.record(Bounce::Scattered);
    assert_eq!(path.step(), PathStep::End(PathEnd::Dark));
}

#[test]
fn path_with_one_bounce_that_misses_is_sky() {
    let mut path = Path::new(1);
    path.record(Bounce::Missed);
    assert_eq!(path.step(), PathStep::End(PathEnd::Sky));
}
