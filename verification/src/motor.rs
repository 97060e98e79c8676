//! Motor drive arithmetic.
//!
//! Speeds are signed per-mille values: 1000 stands for full forward, -1000
//! for full reverse, so the drive logic stays in exact integers while the
//! caller converts measured floating-point velocities to and from this
//! scale. A [`MotorDriver`] turns a speed into complementary duty cycles
//! for the two H-bridge channels; [`mix_wheel_speeds`] turns a linear and
//! an angular component into left and right wheel speeds, surrendering
//! linear speed to preserve the angular component when both cannot fit;
//! [`MotionState`] latches the last velocity request and enforces the
//! one-second watchdog.

use vstd::prelude::*;

verus! {

/// Full scale of a per-mille speed.
pub const SPEED_SCALE: i32 = 1000;

/// Speeds below this magnitude are treated as zero.
pub const SPEED_DEADBAND: i32 = 10;

/// The watchdog horizon: with no velocity request for this many
/// microseconds, the motors are stopped.
pub const WATCHDOG_TIMEOUT_US: u64 = 1_000_000;

/// A speed clamped to full scale.
pub open spec fn clamp_speed(s: int) -> int {
    if s > SPEED_SCALE as int {
        SPEED_SCALE as int
    } else if s < -(SPEED_SCALE as int) {
        -(SPEED_SCALE as int)
    } else {
        s
    }
}

/// Magnitude of a speed.
pub open spec fn speed_abs(s: int) -> int {
    if s >= 0 {
        s
    } else {
        -s
    }
}

/// One motor's H-bridge: two PWM channels with their maximum duty
/// cycles, driven complementarily.
#[derive(Clone, Copy, Debug, PartialEq, Eq, Structural)]
pub struct MotorDriver {
    pub duty_a: u32,
    pub duty_b: u32,
    pub max_duty_a: u32,
    pub max_duty_b: u32,
}

impl MotorDriver {
    /// A driver with both channels off.
    pub fn new(max_duty_a: u32, max_duty_b: u32) -> (r: MotorDriver)
        ensures
            r == (MotorDriver { duty_a: 0u32, duty_b: 0u32, max_duty_a, max_duty_b }),
    {
        MotorDriver { duty_a: 0, duty_b: 0, max_duty_a, max_duty_b }
    }

    /// Drive at `speed` per mille: clamp to full scale; inside the
    /// deadband both channels go low; forward scales channel A down from
    /// its maximum while channel B holds its maximum; reverse mirrors
    /// the two.
    pub fn set_speed(&mut self, speed: i32)
        ensures
            final(self).max_duty_a == old(self).max_duty_a,
            final(self).max_duty_b == old(self).max_duty_b,
            ({
                let s = clamp_speed(speed as int);
                let ma = old(self).max_duty_a as int;
                let mb = old(self).max_duty_b as int;
                if -SPEED_DEADBAND < speed < SPEED_DEADBAND {
                    final(self).duty_a == 0 && final(self).duty_b == 0
                } else if s >= 0 {
                    final(self).duty_a == (1000 - s) * ma / 1000 && final(self).duty_b == mb
                } else {
                    final(self).duty_a == ma && final(self).duty_b == (1000 + s) * mb / 1000
                }
            }),
    {
        let clamped: i32 = if speed > SPEED_SCALE {
            SPEED_SCALE
        } else if speed < -SPEED_SCALE {
            -SPEED_SCALE
        } else {
            speed
        };
        if speed < SPEED_DEADBAND && speed > -SPEED_DEADBAND {
            self.duty_a = 0;
            self.duty_b = 0;
            return;
        }
        if clamped >= 0 {
            let scale = (1000 - clamped) as u64;
            let ghost factor = (1000 - clamped) as int;
            let ghost cap = self.max_duty_a as int;
            proof {
                assert(factor * cap / 1000 <= cap) by (nonlinear_arith)
                    requires
                        0 <= factor <= 1000,
                        cap >= 0,
                ;
            }
            self.duty_a = ((scale * (self.max_duty_a as u64)) / 1000) as u32;
            self.duty_b = self.max_duty_b;
        } else {
            let scale = (1000 + clamped) as u64;
            let ghost factor = (1000 + clamped) as int;
            let ghost cap = self.max_duty_b as int;
            proof {
                assert(factor * cap / 1000 <= cap) by (nonlinear_arith)
                    requires
                        0 <= factor <= 1000,
                        cap >= 0,
                ;
            }
            self.duty_a = self.max_duty_a;
            self.duty_b = ((scale * (self.max_duty_b as u64)) / 1000) as u32;
        }
    }
}

/// Left and right wheel speeds for a linear and an angular per-mille
/// component: both are clamped; when their magnitudes together exceed
/// full scale, the linear component gives way so the angular component
/// survives whole.
pub open spec fn mixed_speeds(vel_pct: int, right_add_pct: int) -> (int, int) {
    let v = clamp_speed(vel_pct);
    let w = clamp_speed(right_add_pct);
    let v2 = if speed_abs(v) + speed_abs(w) > SPEED_SCALE as int {
        if v >= 0 {
            SPEED_SCALE as int - speed_abs(w)
        } else {
            -(SPEED_SCALE as int - speed_abs(w))
        }
    } else {
        v
    };
    (v2 - w, v2 + w)
}

/// Compute the wheel speeds of [`mixed_speeds`]; both results fit full
/// scale and their difference is exactly twice the clamped angular
/// component, so angular motion is preserved at the expense of linear
/// speed.
pub fn mix_wheel_speeds(vel_pct: i32, right_add_pct: i32) -> (r: (i32, i32))
    ensures
        (r.0 as int, r.1 as int) == mixed_speeds(vel_pct as int, right_add_pct as int),
        -SPEED_SCALE <= r.0 <= SPEED_SCALE,
        -SPEED_SCALE <= r.1 <= SPEED_SCALE,
        r.1 - r.0 == 2 * clamp_speed(right_add_pct as int),
{
    let v: i32 = if vel_pct > SPEED_SCALE {
        SPEED_SCALE
    } else if vel_pct < -SPEED_SCALE {
        -SPEED_SCALE
    } else {
        vel_pct
    };
    let w: i32 = if right_add_pct > SPEED_SCALE {
        SPEED_SCALE
    } else if right_add_pct < -SPEED_SCALE {
        -SPEED_SCALE
    } else {
        right_add_pct
    };
    let v_abs: i32 = if v >= 0 {
        v
    } else {
        -v
    };
    let w_abs: i32 = if w >= 0 {
        w
    } else {
        -w
    };
    let v2: i32 = if v_abs + w_abs > SPEED_SCALE {
        if v >= 0 {
            SPEED_SCALE - w_abs
        } else {
            -(SPEED_SCALE - w_abs)
        }
    } else {
        v
    };
    (v2 - w, v2 + w)
}

/// The firmware's motion command state: the wheel speeds of the last
/// velocity request and when it arrived.
pub struct MotionState {
    pub last_request_time: Option<u64>,
    pub left_speed: i32,
    pub right_speed: i32,
}

impl MotionState {
    /// No request seen yet; the wheels are stopped.
    pub fn new() -> (r: MotionState)
        ensures
            r.last_request_time is None,
            r.left_speed == 0,
            r.right_speed == 0,
    {
        MotionState { last_request_time: None, left_speed: 0, right_speed: 0 }
    }

    /// Latch a velocity request: mix the components into wheel speeds
    /// and restart the watchdog.
    pub fn on_velocity_request(&mut self, now: u64, vel_pct: i32, right_add_pct: i32)
        ensures
            final(self).last_request_time == Some(now),
            (final(self).left_speed as int, final(self).right_speed as int) == mixed_speeds(
                vel_pct as int,
                right_add_pct as int,
            ),
    {
        let (left, right) = mix_wheel_speeds(vel_pct, right_add_pct);
        self.left_speed = left;
        self.right_speed = right;
        self.last_request_time = Some(now);
    }

    /// One control period: the wheel speeds to apply now. With no
    /// request yet, or none for [`WATCHDOG_TIMEOUT_US`], the watchdog
    /// forces both wheels to zero; otherwise the latched speeds stand.
    pub fn tick(&mut self, now: u64) -> (r: (i32, i32))
        requires
            old(self).last_request_time matches Some(t) ==> t <= now,
        ensures
            final(self).last_request_time == old(self).last_request_time,
            match old(self).last_request_time {
                Option::Some(t) => {
                    if now - t >= WATCHDOG_TIMEOUT_US {
                        &&& r == (0i32, 0i32)
                        &&& final(self).left_speed == 0
                        &&& final(self).right_speed == 0
                    } else {
                        &&& r == (old(self).left_speed, old(self).right_speed)
                        &&& final(self).left_speed == old(self).left_speed
                        &&& final(self).right_speed == old(self).right_speed
                    }
                },
                Option::None => {
                    &&& r == (0i32, 0i32)
                    &&& final(self).left_speed == 0
                    &&& final(self).right_speed == 0
                },
            },
    {
        match self.last_request_time {
            Some(t) => {
                if now - t >= WATCHDOG_TIMEOUT_US {
                    self.left_speed = 0;
                    self.right_speed = 0;
                    (0, 0)
                } else {
                    (self.left_speed, self.right_speed)
                }
            },
            None => {
                self.left_speed = 0;
                self.right_speed = 0;
                (0, 0)
            },
        }
    }
}

} // verus!
