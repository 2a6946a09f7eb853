//! Direct GPIO helpers: software-debounced rotary encoders and sysfs paths.
//!
//! The encoders keep their configuration and count here; the sampling loop
//! that reads the lines runs outside the library and feeds each sample to
//! `QuadratureDebouncer::step` or `ClockDebouncer::step`.
use crate::encoder::{forward_of, quadrature_delta, spec_delta};
use crate::text::{
    chars_contain, chars_of, chars_start_with, chars_view, concat_str, contains_seq, decimal,
    decimal_string, lines, lines_of, starts_with, string_of, strings_view, trim, trim_chars,
};
use vstd::prelude::*;

verus! {

/// The direction of the last change of an encoder.
#[derive(Debug, Clone, Copy, PartialEq, Eq, Structural)]
pub enum EncDirection {
    Still,
    Clockwise,
    CounterClockwise,
}

/// A two-channel quadrature encoder polled directly on the GPIO lines.
#[derive(Debug, Clone)]
pub struct GpioRotaryEncoder {
    pin_a_bcm: u32,
    pin_b_bcm: u32,
    debounce_us: u64,
    min_pulse_us: u64,
    count: i64,
    direction: EncDirection,
    running: bool,
}

pub struct EncoderModel {
    pub pin_a_bcm: u32,
    pub pin_b_bcm: u32,
    pub debounce_us: u64,
    pub min_pulse_us: u64,
    pub count: i64,
    /// The direction of the most recent change of the count.
    pub direction: EncDirection,
    pub running: bool,
}

/// The direction a step of `delta` turns, `Still` for no step.
pub open spec fn step_direction(delta: i64, before: EncDirection) -> EncDirection {
    if delta > 0 {
        EncDirection::Clockwise
    } else if delta < 0 {
        EncDirection::CounterClockwise
    } else {
        before
    }
}

impl GpioRotaryEncoder {
    pub closed spec fn model(&self) -> EncoderModel {
        EncoderModel {
            pin_a_bcm: self.pin_a_bcm,
            pin_b_bcm: self.pin_b_bcm,
            debounce_us: self.debounce_us,
            min_pulse_us: self.min_pulse_us,
            count: self.count,
            direction: self.direction,
            running: self.running,
        }
    }

    /// 500 µs debounce, 200 µs minimum pulse, count zero, not running.
    pub fn new(pin_a_bcm: u32, pin_b_bcm: u32) -> (e: GpioRotaryEncoder)
        ensures
            e.model() == (EncoderModel {
                pin_a_bcm,
                pin_b_bcm,
                debounce_us: 500,
                min_pulse_us: 200,
                count: 0,
                direction: EncDirection::Still,
                running: false,
            }),
    {
        GpioRotaryEncoder {
            pin_a_bcm,
            pin_b_bcm,
            debounce_us: 500,
            min_pulse_us: 200,
            count: 0,
            direction: EncDirection::Still,
            running: false,
        }
    }

    pub fn debounce_us(self, us: u64) -> (e: GpioRotaryEncoder)
        ensures
            e.model() == (EncoderModel { debounce_us: us, ..self.model() }),
    {
        GpioRotaryEncoder { debounce_us: us, ..self }
    }

    pub fn min_pulse_us(self, us: u64) -> (e: GpioRotaryEncoder)
        ensures
            e.model() == (EncoderModel { min_pulse_us: us, ..self.model() }),
    {
        GpioRotaryEncoder { min_pulse_us: us, ..self }
    }

    /// Marks the encoder as running; gives back whether it already was, in
    /// which case no second sampling loop is to be started.
    pub fn mark_running(&mut self) -> (was_running: bool)
        ensures
            was_running == old(self).model().running,
            final(self).model() == (EncoderModel { running: true, ..old(self).model() }),
    {
        let was = self.running;
        self.running = true;
        was
    }

    pub fn stop(&mut self)
        ensures
            final(self).model() == (EncoderModel { running: false, ..old(self).model() }),
    {
        self.running = false;
    }

    /// The count and the direction of its most recent change (`Still`
    /// while it has not changed since the encoder was made or reset).
    pub fn read(&self) -> (r: (i64, EncDirection))
        ensures
            r == (self.model().count, self.model().direction),
    {
        (self.count, self.direction)
    }

    pub fn count(&self) -> (c: i64)
        ensures
            c == self.model().count,
    {
        self.count
    }

    pub fn reset(&mut self)
        ensures
            final(self).model() == (EncoderModel { count: 0, direction: EncDirection::Still, ..old(self).model() }),
    {
        self.count = 0;
        self.direction = EncDirection::Still;
    }

    pub fn is_running(&self) -> (r: bool)
        ensures
            r == self.model().running,
    {
        self.running
    }

    /// Adds steps to the count, wrapping like an atomic counter; a step
    /// forward turns clockwise, a step back counter-clockwise.
    pub fn add_steps(&mut self, delta: i64)
        ensures
            final(self).model() == (EncoderModel {
                count: vstd::wrapping::i64_specs::wrapping_add(old(self).model().count, delta),
                direction: step_direction(delta, old(self).model().direction),
                ..old(self).model()
            }),
    {
        self.count = self.count.wrapping_add(delta);
        if delta > 0 {
            self.direction = EncDirection::Clockwise;
        } else if delta < 0 {
            self.direction = EncDirection::CounterClockwise;
        }
    }

    /// The A and B line numbers.
    pub fn pins(&self) -> (p: (u32, u32))
        ensures
            p == (self.model().pin_a_bcm, self.model().pin_b_bcm),
    {
        (self.pin_a_bcm, self.pin_b_bcm)
    }

    /// The debounce time and the minimum pulse width, in microseconds.
    pub fn timing(&self) -> (t: (u64, u64))
        ensures
            t == (self.model().debounce_us, self.model().min_pulse_us),
    {
        (self.debounce_us, self.min_pulse_us)
    }
}

/// The debounce state of a quadrature sampling loop.
#[derive(Debug, Clone, Copy, PartialEq, Eq, Structural)]
pub struct QuadratureDebouncer {
    pub prev_raw: u8,
    pub stable: u8,
    pub stable_at_us: u64,
    pub last_event_us: u64,
}

/// One sample of the loop: a change restarts the debounce timer; a state
/// that differs from the accepted one and has held for `debounce_us` is
/// accepted, and counted when at least `min_pulse_us` passed since the last
/// counted step.
pub open spec fn debounce_step(d: QuadratureDebouncer, raw: u8, now_us: u64, debounce_us: u64, min_pulse_us: u64) -> (QuadratureDebouncer, int) {
    if raw != d.prev_raw {
        (QuadratureDebouncer { prev_raw: raw, stable_at_us: now_us, ..d }, 0)
    } else if raw != d.stable && now_us - d.stable_at_us >= debounce_us {
        if now_us - d.last_event_us >= min_pulse_us {
            (QuadratureDebouncer { stable: raw, last_event_us: now_us, ..d }, spec_delta(d.stable, raw))
        } else {
            (QuadratureDebouncer { stable: raw, ..d }, 0)
        }
    } else {
        (d, 0)
    }
}

impl QuadratureDebouncer {
    /// The state right after the first sample.
    pub fn new(raw: u8, now_us: u64) -> (d: QuadratureDebouncer)
        ensures
            d == (QuadratureDebouncer { prev_raw: raw, stable: raw, stable_at_us: now_us, last_event_us: now_us }),
    {
        QuadratureDebouncer { prev_raw: raw, stable: raw, stable_at_us: now_us, last_event_us: now_us }
    }

    /// Feeds one sample taken at `now_us` (a monotonic clock, so never
    /// earlier than the previous samples); gives the step to count.
    pub fn step(&mut self, raw: u8, now_us: u64, debounce_us: u64, min_pulse_us: u64) -> (delta: i64)
        requires
            now_us >= old(self).stable_at_us,
            now_us >= old(self).last_event_us,
        ensures
            (*final(self), delta as int) == debounce_step(*old(self), raw, now_us, debounce_us, min_pulse_us),
    {
        if raw != self.prev_raw {
            self.prev_raw = raw;
            self.stable_at_us = now_us;
            0
        } else if raw != self.stable && now_us - self.stable_at_us >= debounce_us {
            let mut delta: i64 = 0;
            if now_us - self.last_event_us >= min_pulse_us {
                delta = quadrature_delta(self.stable, raw);
                self.last_event_us = now_us;
            }
            self.stable = raw;
            delta
        } else {
            0
        }
    }
}

/// The edge-detection state of a clock/data (three-pin) encoder loop.
#[derive(Debug, Clone, Copy, PartialEq, Eq, Structural)]
pub struct ClockDebouncer {
    pub last_clk: bool,
    pub stable_at_us: u64,
}

/// One sample: a falling clock edge at least `debounce_us` after the last
/// counted one counts +1 when data is high and -1 when it is low.
pub open spec fn clock_step(d: ClockDebouncer, clk: bool, dt: bool, now_us: u64, debounce_us: u64) -> (ClockDebouncer, int) {
    if !clk && d.last_clk && now_us - d.stable_at_us >= debounce_us {
        (ClockDebouncer { last_clk: clk, stable_at_us: now_us }, if dt { 1 } else { -1 })
    } else {
        (ClockDebouncer { last_clk: clk, ..d }, 0)
    }
}

impl ClockDebouncer {
    pub fn new(clk: bool, now_us: u64) -> (d: ClockDebouncer)
        ensures
            d == (ClockDebouncer { last_clk: clk, stable_at_us: now_us }),
    {
        ClockDebouncer { last_clk: clk, stable_at_us: now_us }
    }

    /// Feeds one sample taken at `now_us` (monotonic); gives the step.
    pub fn step(&mut self, clk: bool, dt: bool, now_us: u64, debounce_us: u64) -> (delta: i64)
        requires
            now_us >= old(self).stable_at_us,
        ensures
            (*final(self), delta as int) == clock_step(*old(self), clk, dt, now_us, debounce_us),
    {
        let mut delta: i64 = 0;
        if !clk && self.last_clk && now_us - self.stable_at_us >= debounce_us {
            delta = if dt { 1 } else { -1 };
            self.stable_at_us = now_us;
        }
        self.last_clk = clk;
        delta
    }
}

/// What one sample does to a quadrature debouncer. A level that differs
/// from the last sample counts nothing and restarts the debounce timer. A
/// level that has held for the debounce time and differs from the accepted
/// state becomes the accepted state; it counts the quadrature step from the
/// old accepted state (+1 for a step forward) when at least `min_pulse_us`
/// passed since the last counted step, and nothing otherwise. A level held
/// for less than the debounce time changes nothing.
pub proof fn law_debounce_sample(d: QuadratureDebouncer, raw: u8, now_us: u64, debounce_us: u64, min_pulse_us: u64)
    requires
        now_us >= d.stable_at_us,
        now_us >= d.last_event_us,
    ensures
        raw != d.prev_raw ==> {
            let (e, delta) = debounce_step(d, raw, now_us, debounce_us, min_pulse_us);
            &&& delta == 0
            &&& e.prev_raw == raw && e.stable_at_us == now_us
            &&& e.stable == d.stable && e.last_event_us == d.last_event_us
        },
        raw == d.prev_raw && raw != d.stable && now_us >= d.stable_at_us + debounce_us && now_us >= d.last_event_us
            + min_pulse_us ==> {
            let (e, delta) = debounce_step(d, raw, now_us, debounce_us, min_pulse_us);
            &&& delta == spec_delta(d.stable, raw)
            &&& (raw % 4 == forward_of(d.stable) ==> delta == 1)
            &&& (d.stable % 4 == forward_of(raw) ==> delta == -1)
            &&& e.stable == raw && e.last_event_us == now_us
        },
        raw == d.prev_raw && raw != d.stable && now_us >= d.stable_at_us + debounce_us && now_us < d.last_event_us
            + min_pulse_us ==> {
            let (e, delta) = debounce_step(d, raw, now_us, debounce_us, min_pulse_us);
            &&& delta == 0
            &&& e.stable == raw && e.last_event_us == d.last_event_us
        },
        raw == d.prev_raw && (raw == d.stable || now_us < d.stable_at_us + debounce_us) ==> debounce_step(
            d,
            raw,
            now_us,
            debounce_us,
            min_pulse_us,
        ) == (d, 0int),
{
}

/// A new level seen at `t1` and still seen at `t2`, at least the debounce
/// time later and at least `min_pulse_us` after the debouncer started at
/// `t0`, is counted once, as the quadrature step from the first level: a
/// step forward held past the debounce counts +1.
pub proof fn law_held_change_counts(
    first: u8,
    raw: u8,
    t0: u64,
    t1: u64,
    t2: u64,
    debounce_us: u64,
    min_pulse_us: u64,
)
    requires
        raw != first,
        t0 <= t1 <= t2,
        t2 >= t1 + debounce_us,
        t2 >= t0 + min_pulse_us,
    ensures
        ({
            let d0 = QuadratureDebouncer { prev_raw: first, stable: first, stable_at_us: t0, last_event_us: t0 };
            let (d1, x1) = debounce_step(d0, raw, t1, debounce_us, min_pulse_us);
            let (d2, x2) = debounce_step(d1, raw, t2, debounce_us, min_pulse_us);
            &&& x1 == 0
            &&& x2 == spec_delta(first, raw)
            &&& (raw % 4 == forward_of(first) ==> x2 == 1)
            &&& d2.stable == raw
        }),
{
}

/// What one sample does to a clock/data debouncer: a falling clock edge at
/// least the debounce time after the last counted one counts +1 when data
/// is high and -1 when it is low; any other sample counts nothing and keeps
/// the time of the last counted edge.
pub proof fn law_clock_sample(d: ClockDebouncer, clk: bool, dt: bool, now_us: u64, debounce_us: u64)
    requires
        now_us >= d.stable_at_us,
    ensures
        d.last_clk && !clk && now_us >= d.stable_at_us + debounce_us ==> clock_step(d, clk, dt, now_us, debounce_us)
            == (ClockDebouncer { last_clk: false, stable_at_us: now_us }, if dt { 1int } else { -1int }),
        !(d.last_clk && !clk) || now_us < d.stable_at_us + debounce_us ==> clock_step(d, clk, dt, now_us, debounce_us)
            == (ClockDebouncer { last_clk: clk, stable_at_us: d.stable_at_us }, 0int),
{
}

/// A clock/data (three-pin) rotary encoder polled directly on GPIO.
#[derive(Debug, Clone)]
pub struct GpioRotaryEncoder3Pin {
    pin_clk_bcm: u32,
    pin_dt_bcm: u32,
    debounce_us: u64,
    count: i64,
    running: bool,
}

pub struct Encoder3PinModel {
    pub pin_clk_bcm: u32,
    pub pin_dt_bcm: u32,
    pub debounce_us: u64,
    pub count: i64,
    pub running: bool,
}

impl GpioRotaryEncoder3Pin {
    pub closed spec fn model(&self) -> Encoder3PinModel {
        Encoder3PinModel {
            pin_clk_bcm: self.pin_clk_bcm,
            pin_dt_bcm: self.pin_dt_bcm,
            debounce_us: self.debounce_us,
            count: self.count,
            running: self.running,
        }
    }

    /// 1000 µs debounce, count zero, not running.
    pub fn new(pin_clk_bcm: u32, pin_dt_bcm: u32) -> (e: GpioRotaryEncoder3Pin)
        ensures
            e.model() == (Encoder3PinModel { pin_clk_bcm, pin_dt_bcm, debounce_us: 1000, count: 0, running: false }),
    {
        GpioRotaryEncoder3Pin { pin_clk_bcm, pin_dt_bcm, debounce_us: 1000, count: 0, running: false }
    }

    pub fn debounce_us(self, us: u64) -> (e: GpioRotaryEncoder3Pin)
        ensures
            e.model() == (Encoder3PinModel { debounce_us: us, ..self.model() }),
    {
        GpioRotaryEncoder3Pin { debounce_us: us, ..self }
    }

    /// Marks the encoder as running; gives back whether it already was.
    pub fn mark_running(&mut self) -> (was_running: bool)
        ensures
            was_running == old(self).model().running,
            final(self).model() == (Encoder3PinModel { running: true, ..old(self).model() }),
    {
        let was = self.running;
        self.running = true;
        was
    }

    pub fn stop(&mut self)
        ensures
            final(self).model() == (Encoder3PinModel { running: false, ..old(self).model() }),
    {
        self.running = false;
    }

    pub fn count(&self) -> (c: i64)
        ensures
            c == self.model().count,
    {
        self.count
    }

    pub fn reset(&mut self)
        ensures
            final(self).model() == (Encoder3PinModel { count: 0, ..old(self).model() }),
    {
        self.count = 0;
    }

    pub fn is_running(&self) -> (r: bool)
        ensures
            r == self.model().running,
    {
        self.running
    }

    /// Adds steps to the count, wrapping like an atomic counter.
    pub fn add_steps(&mut self, delta: i64)
        ensures
            final(self).model() == (Encoder3PinModel {
                count: vstd::wrapping::i64_specs::wrapping_add(old(self).model().count, delta),
                ..old(self).model()
            }),
    {
        self.count = self.count.wrapping_add(delta);
    }

    /// The clock and data line numbers.
    pub fn pins(&self) -> (p: (u32, u32))
        ensures
            p == (self.model().pin_clk_bcm, self.model().pin_dt_bcm),
    {
        (self.pin_clk_bcm, self.pin_dt_bcm)
    }

    pub fn debounce(&self) -> (d: u64)
        ensures
            d == self.model().debounce_us,
    {
        self.debounce_us
    }
}

/// `/sys/class/gpio/gpio<bcm>`.
pub fn gpio_sysfs_path(bcm: u32) -> (p: String)
    ensures
        p@ == "/sys/class/gpio/gpio"@ + decimal(bcm as nat),
{
    let mut p = String::from_str("/sys/class/gpio/gpio");
    let n = decimal_string(bcm as u64);
    p.append(n.as_str());
    p
}

// ----- device tree overlays -----
/// Device tree overlays, loaded and listed with `dtoverlay`. The library
/// builds the arguments and reads the listing; running the command happens
/// outside.
pub struct DtOverlay;

/// The overlay names in the lines of `dtoverlay -l`: each line trimmed,
/// leaving out blank lines and the heading (a line starting `Overlays`).
pub open spec fn overlay_lines(ls: Seq<Seq<char>>) -> Seq<Seq<char>>
    decreases ls.len(),
{
    if ls.len() == 0 {
        Seq::empty()
    } else {
        let rest = overlay_lines(ls.drop_last());
        let l = ls.last();
        if trim(l).len() > 0 && !starts_with(l, "Overlays"@) {
            rest.push(trim(l))
        } else {
            rest
        }
    }
}

/// A parameter as `dtoverlay` takes it: `key=value`.
pub open spec fn overlay_param(p: (&str, &str)) -> Seq<char> {
    p.0@ + "="@ + p.1@
}

impl DtOverlay {
    /// The arguments of `dtoverlay` that load `name` with `params`.
    pub fn load_args(name: &str, params: &[(&str, &str)]) -> (args: Vec<String>)
        ensures
            strings_view(args@) == seq![name@] + params@.map_values(|p: (&str, &str)| overlay_param(p)),
    {
        let mut args: Vec<String> = Vec::new();
        args.push(String::from_str(name));
        let mut i: usize = 0;
        while i < params.len()
            invariant
                i <= params@.len(),
                strings_view(args@) == seq![name@] + params@.subrange(0, i as int).map_values(
                    |p: (&str, &str)| overlay_param(p),
                ),
            decreases params@.len() - i,
        {
            let (k, v) = params[i];
            let kv = concat_str(k, "=");
            let mut arg = kv;
            arg.append(v);
            let ghost before = args@;
            args.push(arg);
            proof {
                assert(strings_view(args@) =~= strings_view(before).push(arg@));
                assert(params@.subrange(0, i + 1).map_values(|p: (&str, &str)| overlay_param(p)) =~= params@.subrange(
                    0,
                    i as int,
                ).map_values(|p: (&str, &str)| overlay_param(p)).push(overlay_param(params@[i as int])));
            }
            i = i + 1;
        }
        assert(params@.subrange(0, params@.len() as int) =~= params@);
        args
    }

    /// The overlays named in the output of `dtoverlay -l`.
    pub fn parse_list(output: &str) -> (names: Vec<String>)
        ensures
            strings_view(names@) == overlay_lines(lines(output@)),
    {
        let text = chars_of(output);
        let ls = lines_of(text.as_slice());
        let ghost all = lines(output@);
        let heading = chars_of("Overlays");
        let mut names: Vec<String> = Vec::new();
        let mut i: usize = 0;
        while i < ls.len()
            invariant
                i <= ls@.len(),
                chars_view(ls@) == all,
                heading@ == "Overlays"@,
                strings_view(names@) == overlay_lines(all.take(i as int)),
            decreases ls@.len() - i,
        {
            let line = &ls[i];
            assert(line@ == all[i as int]);
            let t = trim_chars(line.as_slice());
            let ghost before = names@;
            proof {
                assert(all.take(i + 1).drop_last() =~= all.take(i as int));
                assert(all.take(i + 1).last() == all[i as int]);
            }
            if t.len() > 0 && !chars_start_with(line.as_slice(), heading.as_slice()) {
                let name = string_of(t.as_slice());
                names.push(name);
                assert(strings_view(names@) =~= strings_view(before).push(t@));
            }
            i = i + 1;
        }
        assert(all.take(ls@.len() as int) =~= all);
        names
    }

    /// Whether an overlay whose name contains `name` is in the listing.
    pub fn is_loaded(list: &Vec<String>, name: &str) -> (r: bool)
        ensures
            r == exists|i: int| 0 <= i < list@.len() && contains_seq(#[trigger] list@[i]@, name@),
    {
        let n = chars_of(name);
        let mut i: usize = 0;
        while i < list.len()
            invariant
                i <= list@.len(),
                n@ == name@,
                forall|k: int| 0 <= k < i ==> !contains_seq(#[trigger] list@[k]@, name@),
            decreases list@.len() - i,
        {
            if chars_contain(chars_of(list[i].as_str()).as_slice(), n.as_slice()) {
                return true;
            }
            i = i + 1;
        }
        false
    }
}

} // verus!
