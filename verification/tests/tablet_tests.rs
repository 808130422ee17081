use brushcore::tablet::{
    PressureCurve, PointerEventBackend, TabletBackend, TabletConfig, TabletEvent, TabletStatus,
    check_wintab_available,
};

#[test]
fn test_pressure_curve_linear() {
    let curve = PressureCurve::Linear;
    assert_eq!(curve.apply(0), 0);
    assert_eq!(curve.apply(32768), 32768);
    assert_eq!(curve.apply(65536), 65536);
}

#[test]
fn test_pressure_curve_soft() {
    let curve = PressureCurve::Soft;
    assert_eq!(curve.apply(0), 0);
    assert!(curve.apply(16384) > 16384); // Soft makes low pressure easier
    assert_eq!(curve.apply(65536), 65536);
}

#[test]
fn test_pressure_curve_hard() {
    let curve = PressureCurve::Hard;
    assert_eq!(curve.apply(0), 0);
    assert!(curve.apply(32768) < 32768); // Hard makes low pressure harder
    assert_eq!(curve.apply(65536), 65536);
}

#[test]
fn test_pressure_curve_clamping() {
    let curve = PressureCurve::Linear;
    assert_eq!(curve.apply(-32768), 0);
    assert_eq!(curve.apply(98304), 65536);
}

#[test]
fn test_pressure_curve_scurve_midpoint() {
    // Smoothstep fixes 0, the midpoint and 1
    let curve = PressureCurve::SCurve;
    assert_eq!(curve.apply(0), 0);
    assert_eq!(curve.apply(32768), 32768);
    assert_eq!(curve.apply(65536), 65536);
}

#[test]
fn test_pointer_backend_creation() {
    let backend = PointerEventBackend::new();
    assert_eq!(backend.status(), TabletStatus::Disconnected);
    assert!(backend.info().is_none());
}

#[test]
fn test_pointer_backend_init() {
    let mut backend = PointerEventBackend::new();
    let config = TabletConfig::default();

    let result = backend.init(&config);
    assert!(result.is_ok());
    assert_eq!(backend.status(), TabletStatus::Connected);
    assert!(backend.info().is_some());
}

#[test]
fn test_pointer_backend_push_input() -> Result<(), String> {
    let mut backend = PointerEventBackend::new();
    backend.init(&TabletConfig::default())?;
    backend.start()?;

    backend.push_input(25600, 51200, 32768, 655360, -327680, 0);

    let mut events = Vec::new();
    let count = backend.poll(&mut events);

    assert_eq!(count, 1);
    if let TabletEvent::Input(point) = &events[0] {
        assert_eq!(point.x, 25600);
        assert_eq!(point.y, 51200);
        assert_eq!(point.pressure, 32768);
    } else {
        panic!("Expected Input event");
    }
    Ok(())
}

#[test]
fn test_pointer_backend_start_requires_init() {
    let mut backend = PointerEventBackend::new();
    assert!(backend.start().is_err());
}

#[test]
fn test_wintab_availability() {
    let available = check_wintab_available();
    println!("WinTab available: {}", available);
}
