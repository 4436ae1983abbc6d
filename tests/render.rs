use raytracer::{Render, RenderAction, RenderPlan, RowDone};

fn color_of(i: u32, j: u32) -> (u8, u8, u8) {
    (10 * i as u8 + j as u8, 100 + j as u8, 200 + i as u8)
}

#[test]
fn render_walks_rows_from_the_top_and_samples_each_pixel() {
    let plan = RenderPlan::new(3, 2, 2, 5).unwrap();
    let mut render = Render::new(plan);
    let mut visited = Vec::new();
    let mut rows = Vec::new();
    loop {
        match render.next_action() {
            RenderAction::Sample { i, j } => {
                visited.push(('s', i, j));
                render.sample_taken();
            }
            RenderAction::Shade { i, j } => {
                visited.push(('p', i, j));
                if let Some(done) = render.shade(color_of(i, j)) {
                    rows.push(done);
                }
            }
            RenderAction::Done => break,
        }
    }
    let mut expected = Vec::new();
    for j in 0..2 {
        for i in 0..3 {
            expected.push(('s', i, j));
            expected.push(('s', i, j));
            expected.push(('p', i, j));
        }
    }
    assert_eq!(visited, expected);
    assert_eq!(rows, vec![RowDone { row: 0, rows: 2 }, RowDone { row: 1, rows: 2 }]);

    let bytes = render.finish();
    let mut expected_bytes = Vec::new();
    for j in 0..2 {
        for i in 0..3 {
            let (r, g, b) = color_of(i, j);
            expected_bytes.extend_from_slice(&[r, g, b]);
        }
    }
    assert_eq!(bytes, expected_bytes);
}

#[test]
fn render_of_one_pixel_reports_its_only_row() {
    let plan = RenderPlan::new(1, 1, 1, 1).unwrap();
    let mut render = Render::new(plan);
    assert_eq!(render.next_action(), RenderAction::Sample { i: 0, j: 0 });
    render.sample_taken();
    assert_eq!(render.next_action(), RenderAction::Shade { i: 0, j: 0 });
    assert_eq!(render.shade((255, 0, 7)), Some(RowDone { row: 0, rows: 1 }));
    assert_eq!(render.next_action(), RenderAction::Done);
    assert_eq!(render.finish(), vec![255, 0, 7]);
}

#[test]
fn render_keeps_its_plan() {
    let plan = RenderPlan::new(4, 3, 1, 2).unwrap();
    let render = Render::new(plan);
    assert_eq!(render.plan(), plan);
}

#[test]
fn render_reports_a_row_only_at_its_last_pixel() {
    let plan = RenderPlan::new(2, 2, 1, 1).unwrap();
    let mut render = Render::new(plan);
    render.sample_taken();
    assert_eq!(render.shade((1, 2, 3)), None);
    assert_eq!(render.next_action(), RenderAction::Sample { i: 1, j: 0 });
    render.sample_taken();
    assert_eq!(render.shade((4, 5, 6)), Some(RowDone { row: 0, rows: 2 }));
    assert_eq!(render.next_action(), RenderAction::Sample { i: 0, j: 1 });
}
