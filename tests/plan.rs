use raytracer::{PlanError, RenderPlan};

#[test]
fn plan_keeps_valid_settings() {
    let plan = RenderPlan::new(400, 225, 100, 50).unwrap();
    assert_eq!(
        plan,
        RenderPlan { image_width: 400, image_height: 225, samples_per_pixel: 100, max_depth: 50 }
    );
}

#[test]
fn plan_raises_zero_height_to_one_row() {
    let plan = RenderPlan::new(5, 0, 1, 0).unwrap();
    assert_eq!(plan.image_height, 1);
    assert_eq!(plan.max_depth, 0);
}

#[test]
fn plan_refuses_zero_width() {
    assert_eq!(RenderPlan::new(0, 10, 10, 10), Err(PlanError::ZeroWidth));
    assert_eq!(RenderPlan::new(0, 10, 0, 10), Err(PlanError::ZeroWidth));
}

#[test]
fn plan_refuses_zero_samples() {
    assert_eq!(RenderPlan::new(10, 10, 0, 10), Err(PlanError::ZeroSamples));
}

#[test]
fn plan_refuses_raster_too_large() {
    assert_eq!(RenderPlan::new(u32::MAX, u32::MAX, 1, 1), Err(PlanError::TooLarge));
}

#[test]
fn plan_accepts_a_single_pixel() {
    let plan = RenderPlan::new(1, 1, 1, 0).unwrap();
    assert_eq!(plan.image_width, 1);
    assert_eq!(plan.image_height, 1);
}
