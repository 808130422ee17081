use brushcore::stamper::{BrushStamper, StamperConfig, HALF_PI_FX, PI_FX};
use brushcore::tablet::RawInputPoint;

fn make_point(x: i64, y: i64, pressure: i64) -> RawInputPoint {
    RawInputPoint::new(x, y, pressure)
}

#[test]
fn test_stamper_creation() {
    let stamper = BrushStamper::new(StamperConfig::default());
    assert_eq!(stamper.config().size, 5120); // 20 pixels
    assert_eq!(stamper.config().spacing, 16384); // a quarter
}

#[test]
fn test_first_point_emits_dab() {
    let mut stamper = BrushStamper::new(StamperConfig::default());
    stamper.begin_stroke();

    let point = make_point(25600, 25600, 65536); // (100, 100) at full pressure
    let dabs = stamper.process_point(&point);

    assert_eq!(dabs.len(), 1);
    assert_eq!(dabs[0].x, 25600);
    assert_eq!(dabs[0].y, 25600);
}

#[test]
fn test_close_points_no_extra_dabs() {
    let mut stamper = BrushStamper::new(
        StamperConfig {
            size: 5120, // 20 pixels
            spacing: 16384, // 5 pixel spacing
            ..Default::default()
        },
    );
    stamper.begin_stroke();

    // First point
    stamper.process_point(&make_point(25600, 25600, 65536));

    // Second point very close (< spacing threshold)
    let dabs = stamper.process_point(&make_point(25856, 25600, 65536));

    // Should not emit extra dabs for such a short distance
    assert!(dabs.len() <= 1);
}

#[test]
fn test_far_points_emit_multiple_dabs() {
    let mut stamper = BrushStamper::new(
        StamperConfig {
            size: 5120, // 20 pixels
            spacing: 16384, // 5 pixel spacing
            ..Default::default()
        },
    );
    stamper.begin_stroke();

    // First point
    stamper.process_point(&make_point(0, 0, 65536));

    // Second point far away (50 pixels = 10 spacing intervals)
    let dabs = stamper.process_point(&make_point(12800, 0, 65536));

    // Should emit multiple dabs
    assert!(dabs.len() >= 5);
}

#[test]
fn test_pressure_affects_size() {
    let mut stamper = BrushStamper::new(
        StamperConfig {
            size: 5120,
            pressure_size: true,
            min_size_ratio: 0,
            ..Default::default()
        },
    );
    stamper.begin_stroke();

    // Low pressure
    let dabs_low = stamper.process_point(&make_point(0, 0, 13107));
    stamper.begin_stroke();

    // High pressure
    let dabs_high = stamper.process_point(&make_point(0, 0, 52429));

    assert!(dabs_high[0].size > dabs_low[0].size);
}

#[test]
fn test_flow_affects_alpha() {
    let mut stamper = BrushStamper::new(
        StamperConfig {
            flow: 32768, // half flow
            pressure_alpha: false,
            ..Default::default()
        },
    );
    stamper.begin_stroke();

    let dabs = stamper.process_point(&make_point(0, 0, 65536));

    assert!((dabs[0].alpha - 32768).abs() < 655);
}

#[test]
fn test_begin_stroke_resets_state() {
    let mut stamper = BrushStamper::new(StamperConfig::default());

    stamper.begin_stroke();
    stamper.process_point(&make_point(0, 0, 65536));
    stamper.process_point(&make_point(25600, 0, 65536));

    // Begin new stroke
    stamper.begin_stroke();
    let dabs = stamper.process_point(&make_point(0, 0, 65536));

    // Should emit initial dab again
    assert_eq!(dabs.len(), 1);
}

#[test]
fn test_finish_stroke_resets_and_owes_nothing() {
    let mut stamper = BrushStamper::new(StamperConfig::default());
    stamper.begin_stroke();
    stamper.process_point(&make_point(0, 0, 65536));
    stamper.process_point(&make_point(12800, 0, 65536));

    let rest = stamper.finish_stroke();
    assert!(rest.is_empty());

    // The next sample starts a fresh stroke again
    let dabs = stamper.process_point(&make_point(512, 512, 65536));
    assert_eq!(dabs.len(), 1);
}

#[test]
fn test_spline_kicks_in_with_four_samples() {
    let mut stamper = BrushStamper::new(StamperConfig::default());
    stamper.begin_stroke();

    // Feed four samples along a line; every call terminates and dabs
    // stay ordered along the path
    let mut total = 0;
    for i in 0..4i64 {
        let dabs = stamper.process_point(&make_point(i * 2560, 0, 65536));
        total += dabs.len();
    }
    assert!(total >= 1);
}

#[test]
fn test_tilt_sets_dab_angle() {
    let mut stamper = BrushStamper::new(StamperConfig::default());

    let mut angled = |tilt_x: i64, tilt_y: i64| -> i64 {
        stamper.begin_stroke();
        let point = RawInputPoint { x: 0, y: 0, pressure: 65536, tilt_x, tilt_y, timestamp_ms: 0 };
        stamper.process_point(&point)[0].angle
    };

    assert_eq!(angled(65536, 0), 0); // tilt along +x
    assert_eq!(angled(0, 65536), HALF_PI_FX); // straight +y
    assert_eq!(angled(-65536, 0), PI_FX); // along -x
    assert_eq!(angled(0, -65536), -HALF_PI_FX); // straight -y
}
