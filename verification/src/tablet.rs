//! Tablet input: raw samples, pressure curves, and the backend interface.
//!
//! A backend delivers an ordered stream of raw stylus samples. The
//! pointer-event backend here is fed by the surrounding application and
//! queues events until they are polled; hardware-specific backends
//! implement the same trait outside the verified core.

use vstd::prelude::*;
use crate::fixed::{UNIT, MAX_COORD, sqrt_floor, isqrt, clamp_spec, clamp64, scale_unit};

verus! {

/// Tilt angles are carried in unit-scale degrees within [-90, 90].
pub const MAX_TILT: i64 = 5_898_240;

/// One raw stylus sample: fixed-point position, unit-interval pressure,
/// unit-scale-degree tilts, and a millisecond timestamp.
#[derive(Debug, Clone, Copy)]
pub struct RawInputPoint {
    pub x: i64,
    pub y: i64,
    pub pressure: i64,
    pub tilt_x: i64,
    pub tilt_y: i64,
    pub timestamp_ms: u64,
}

pub open spec fn raw_point_wf(p: RawInputPoint) -> bool {
    &&& -MAX_COORD <= p.x <= MAX_COORD
    &&& -MAX_COORD <= p.y <= MAX_COORD
    &&& 0 <= p.pressure <= UNIT
    &&& -MAX_TILT <= p.tilt_x <= MAX_TILT
    &&& -MAX_TILT <= p.tilt_y <= MAX_TILT
}

impl RawInputPoint {
    /// A sample with the given position and pressure, no tilt, at time
    /// zero.
    pub fn new(x: i64, y: i64, pressure: i64) -> (p: RawInputPoint)
        requires
            -MAX_COORD <= x <= MAX_COORD,
            -MAX_COORD <= y <= MAX_COORD,
            0 <= pressure <= UNIT,
        ensures
            p == (RawInputPoint { x, y, pressure, tilt_x: 0i64, tilt_y: 0i64, timestamp_ms: 0u64 }),
            raw_point_wf(p),
    {
        RawInputPoint { x, y, pressure, tilt_x: 0, tilt_y: 0, timestamp_ms: 0 }
    }
}

/// Tablet device information reported by a backend.
pub struct TabletInfo {
    pub name: String,
    pub backend: String,
    pub supports_pressure: bool,
    pub supports_tilt: bool,
    pub pressure_range: (i32, i32),
}

impl Clone for TabletInfo {
    /// A field-for-field copy.
    fn clone(&self) -> (r: TabletInfo)
        ensures
            r.name@ == self.name@,
            r.backend@ == self.backend@,
            r.supports_pressure == self.supports_pressure,
            r.supports_tilt == self.supports_tilt,
            r.pressure_range == self.pressure_range,
    {
        TabletInfo {
            name: self.name.clone(),
            backend: self.backend.clone(),
            supports_pressure: self.supports_pressure,
            supports_tilt: self.supports_tilt,
            pressure_range: self.pressure_range,
        }
    }
}

/// Tablet connection status.
#[derive(Debug, Clone, Copy, PartialEq, Eq, Structural)]
pub enum TabletStatus {
    Disconnected,
    Connected,
    Error,
}

/// Events emitted by a tablet backend.
#[derive(Debug, Clone, Copy)]
pub enum TabletEvent {
    Input(RawInputPoint),
    ProximityEnter,
    ProximityLeave,
    StatusChanged(TabletStatus),
}

/// Configuration shared by all tablet backends.
#[derive(Debug, Clone, Copy)]
pub struct TabletConfig {
    pub polling_rate_hz: u32,
    pub prediction_enabled: bool,
    pub pressure_curve: PressureCurve,
}

impl Default for TabletConfig {
    /// 200 Hz polling, prediction on, linear pressure.
    fn default() -> (c: TabletConfig)
        ensures
            c.polling_rate_hz == 200,
            c.prediction_enabled,
            c.pressure_curve == PressureCurve::Linear,
    {
        TabletConfig {
            polling_rate_hz: 200,
            prediction_enabled: true,
            pressure_curve: PressureCurve::Linear,
        }
    }
}

/// How raw pressure maps to output pressure.
#[derive(Debug, Clone, Copy, PartialEq, Eq, Structural)]
pub enum PressureCurve {
    /// 1:1 mapping.
    Linear,
    /// Square root: light pressure comes easier.
    Soft,
    /// Square: full pressure takes more force.
    Hard,
    /// Smoothstep: soft at the extremes, near-linear in the middle.
    SCurve,
}

/// The curve's value on a clamped unit-interval pressure.
pub open spec fn pressure_curve_spec(curve: PressureCurve, pressure: int) -> int {
    let p = clamp_spec(pressure, 0, UNIT as int);
    match curve {
        PressureCurve::Linear => p,
        PressureCurve::Soft => sqrt_floor((p * UNIT) as nat) as int,
        PressureCurve::Hard => p * p / (UNIT as int),
        PressureCurve::SCurve => p * p / (UNIT as int) * (3 * UNIT - 2 * p) / (UNIT as int),
    }
}

impl PressureCurve {
    /// Apply the curve to a unit-interval pressure; out-of-range input
    /// is clamped first.
    pub fn apply(&self, pressure: i64) -> (r: i64)
        ensures
            r == pressure_curve_spec(*self, pressure as int),
            0 <= r <= UNIT,
    {
        let p = clamp64(pressure, 0, UNIT);
        match self {
            PressureCurve::Linear => p,
            PressureCurve::Soft => {
                proof {
                    assert(p * UNIT <= 0x1_0000_0000i64) by (nonlinear_arith)
                        requires 0 <= p <= 0x1_0000i64,
                    ;
                    assert((0x1_0000 as nat) * (0x1_0000 as nat) == 0x1_0000_0000nat)
                        by (nonlinear_arith);
                    crate::fixed::lemma_sqrt_floor_monotone(
                        (p * UNIT) as nat,
                        0x1_0000_0000nat,
                    );
                    crate::fixed::lemma_sqrt_floor_square(0x1_0000nat);
                }
                isqrt((p as u64) * (UNIT as u64)) as i64
            },
            PressureCurve::Hard => scale_unit(p, p),
            PressureCurve::SCurve => {
                let p2 = scale_unit(p, p);
                proof {
                    assert(p2 * (3 * UNIT - 2 * p) <= 0x3_0000_0000_0000i64 && 0 <= p2 * (3 * UNIT
                        - 2 * p)) by (nonlinear_arith)
                        requires 0 <= p2 <= 0x1_0000i64, 0 <= p <= 0x1_0000i64,
                    ;
                    assert(p2 * (3 * UNIT - 2 * p) <= (UNIT as int) * (UNIT as int))
                        by (nonlinear_arith)
                        requires
                            p2 == p * p / (UNIT as int),
                            0 <= p <= UNIT as int,
                            (UNIT as int) * (p * p / (UNIT as int)) <= p * p,
                    ;
                    assert((UNIT as int) * (p * p / (UNIT as int)) <= p * p) by {
                        vstd::arithmetic::div_mod::lemma_fundamental_div_mod(p * p, UNIT as int);
                        vstd::arithmetic::div_mod::lemma_mod_bound(p * p, UNIT as int);
                        assert(p * p >= 0) by (nonlinear_arith);
                    };
                    vstd::arithmetic::div_mod::lemma_div_pos_is_pos(
                        p2 * (3 * UNIT - 2 * p),
                        UNIT as int,
                    );
                    vstd::arithmetic::div_mod::lemma_div_is_ordered(
                        p2 * (3 * UNIT - 2 * p),
                        (UNIT as int) * (UNIT as int),
                        UNIT as int,
                    );
                    vstd::arithmetic::div_mod::lemma_div_multiples_vanish(
                        UNIT as int,
                        UNIT as int,
                    );
                }
                (((p2 as u64) * ((3 * UNIT - 2 * p) as u64)) / (UNIT as u64)) as i64
            },
        }
    }
}

/// The interface every tablet backend offers: initialisation, a
/// start/stop lifecycle, and polling for queued events.
pub trait TabletBackend {
    /// Initialise with the given configuration.
    fn init(&mut self, config: &TabletConfig) -> Result<(), String>;

    /// Start receiving input events.
    fn start(&mut self) -> Result<(), String>;

    /// Stop receiving input events.
    fn stop(&mut self);

    /// The current connection status.
    fn status(&self) -> TabletStatus;

    /// Device information, once connected.
    fn info(&self) -> Option<&TabletInfo>;

    /// Move all queued events into `events`; returns how many there
    /// were.
    fn poll(&mut self, events: &mut Vec<TabletEvent>) -> usize;

    /// Whether this backend can work on the current system.
    fn is_available() -> bool;

    /// The backend's name.
    fn name(&self) -> &'static str;
}

/// Fallback backend fed by pointer events from the surrounding
/// application. Events are queued in order until polled.
pub struct PointerEventBackend {
    status: TabletStatus,
    info: Option<TabletInfo>,
    config: TabletConfig,
    events: Vec<TabletEvent>,
    pressure_curve: PressureCurve,
}

impl PointerEventBackend {
    pub closed spec fn spec_status(&self) -> TabletStatus {
        self.status
    }

    pub closed spec fn spec_info(&self) -> Option<TabletInfo> {
        self.info
    }

    pub closed spec fn spec_events(&self) -> Seq<TabletEvent> {
        self.events@
    }

    pub closed spec fn spec_curve(&self) -> PressureCurve {
        self.pressure_curve
    }

    pub fn new() -> (b: PointerEventBackend)
        ensures
            b.spec_status() == TabletStatus::Disconnected,
            b.spec_info() is None,
            b.spec_events() == Seq::<TabletEvent>::empty(),
            b.spec_curve() == PressureCurve::Linear,
    {
        let b = PointerEventBackend {
            status: TabletStatus::Disconnected,
            info: None,
            config: TabletConfig::default(),
            events: Vec::new(),
            pressure_curve: PressureCurve::Linear,
        };
        proof {
            assert(b.events@ =~= Seq::<TabletEvent>::empty());
        }
        b
    }

    /// Queue one raw pointer sample: the pressure curve is applied and
    /// the tilts are clamped into the valid range. The caller supplies
    /// the timestamp.
    pub fn push_input(
        &mut self,
        x: i64,
        y: i64,
        pressure: i64,
        tilt_x: i64,
        tilt_y: i64,
        timestamp_ms: u64,
    )
        requires
            -MAX_COORD <= x <= MAX_COORD,
            -MAX_COORD <= y <= MAX_COORD,
        ensures
            final(self).spec_events() == old(self).spec_events().push(
                TabletEvent::Input(
                    RawInputPoint {
                        x,
                        y,
                        pressure: pressure_curve_spec(
                            old(self).spec_curve(),
                            pressure as int,
                        ) as i64,
                        tilt_x: clamp_spec(tilt_x as int, -MAX_TILT as int, MAX_TILT as int) as i64,
                        tilt_y: clamp_spec(tilt_y as int, -MAX_TILT as int, MAX_TILT as int) as i64,
                        timestamp_ms,
                    },
                ),
            ),
            final(self).spec_status() == old(self).spec_status(),
            final(self).spec_info() == old(self).spec_info(),
            final(self).spec_curve() == old(self).spec_curve(),
    {
        let adjusted = self.pressure_curve.apply(pressure);
        let point = RawInputPoint {
            x,
            y,
            pressure: adjusted,
            tilt_x: clamp64(tilt_x, -MAX_TILT, MAX_TILT),
            tilt_y: clamp64(tilt_y, -MAX_TILT, MAX_TILT),
            timestamp_ms,
        };
        self.events.push(TabletEvent::Input(point));
    }

    /// Queue a pen-entered-proximity event.
    pub fn push_proximity_enter(&mut self)
        ensures
            final(self).spec_events() == old(self).spec_events().push(
                TabletEvent::ProximityEnter,
            ),
            final(self).spec_status() == old(self).spec_status(),
            final(self).spec_info() == old(self).spec_info(),
            final(self).spec_curve() == old(self).spec_curve(),
    {
        self.events.push(TabletEvent::ProximityEnter);
    }

    /// Queue a pen-left-proximity event.
    pub fn push_proximity_leave(&mut self)
        ensures
            final(self).spec_events() == old(self).spec_events().push(
                TabletEvent::ProximityLeave,
            ),
            final(self).spec_status() == old(self).spec_status(),
            final(self).spec_info() == old(self).spec_info(),
            final(self).spec_curve() == old(self).spec_curve(),
    {
        self.events.push(TabletEvent::ProximityLeave);
    }

    /// The queued events, in arrival order.
    pub fn events_ref(&self) -> (r: &Vec<TabletEvent>)
        ensures
            r@ == self.spec_events(),
    {
        &self.events
    }
}

impl Default for PointerEventBackend {
    fn default() -> (b: PointerEventBackend)
        ensures
            b.spec_status() == TabletStatus::Disconnected,
            b.spec_info() is None,
            b.spec_events() == Seq::<TabletEvent>::empty(),
            b.spec_curve() == PressureCurve::Linear,
    {
        PointerEventBackend::new()
    }
}

impl TabletBackend for PointerEventBackend {
    fn init(&mut self, config: &TabletConfig) -> Result<(), String> {
        self.config = config.clone();
        self.pressure_curve = config.pressure_curve;
        self.info = Some(
            TabletInfo {
                name: String::from_str("PointerEvent"),
                backend: String::from_str("PointerEvent"),
                supports_pressure: true,
                supports_tilt: true,
                pressure_range: (0, 1),
            },
        );
        self.status = TabletStatus::Connected;
        Ok(())
    }

    fn start(&mut self) -> Result<(), String> {
        if self.status != TabletStatus::Connected {
            return Err(String::from_str("Backend not initialized"));
        }
        Ok(())
    }

    fn stop(&mut self) {
        self.events.clear();
    }

    fn status(&self) -> TabletStatus {
        self.status
    }

    fn info(&self) -> Option<&TabletInfo> {
        self.info.as_ref()
    }

    fn poll(&mut self, events: &mut Vec<TabletEvent>) -> usize {
        let count = self.events.len();
        events.append(&mut self.events);
        count
    }

    fn is_available() -> bool {
        true
    }

    fn name(&self) -> &'static str {
        "PointerEvent"
    }
}

/// Whether the WinTab driver can be used. Probing it means loading a
/// platform dynamic library, which the verified core never does, so the
/// answer here is always the conservative one; a hardware backend
/// outside the core may probe for real.
pub fn check_wintab_available() -> (r: bool)
    ensures
        !r,
{
    false
}

} // verus!
