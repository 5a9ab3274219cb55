//! A fixed-capacity stack of timed toggle patterns for driving a single
//! digital output, such as a status LED.
//!
//! A [`Blinker`] owns one output pin and a stack of [`Schedule`]s. Only the
//! most recently pushed schedule is active; once a finite schedule has used
//! up its toggles it is popped and the pattern beneath it resumes.
use vstd::prelude::*;

pub mod laws;

verus! {

/// One toggle pattern. The interval is the number of timer ticks to wait
/// after each toggle; its resolution is chosen by the embedder.
#[derive(Clone, Copy, Debug, PartialEq, Eq, Structural)]
pub enum Schedule {
    /// Toggle forever, waiting the given interval after each toggle.
    Infinite(u64),
    /// Toggle the given number of times, waiting the interval after each
    /// toggle, then retire.
    Finite(u32, u64),
}

/// The interval a schedule asks to wait after each toggle.
pub open spec fn interval_of(s: Schedule) -> u64 {
    match s {
        Schedule::Infinite(d) => d,
        Schedule::Finite(_, d) => d,
    }
}

/// How retirement bookkeeping rewrites the schedule stack at the end of one
/// step: an empty stack and a stack topped by an infinite schedule are left
/// unchanged; a finite schedule at the top loses one remaining toggle, and is
/// popped on the step that consumes its last one. A finite schedule whose
/// count is already zero is popped at once, defensively, without a further
/// decrement.
pub open spec fn retire(stack: Seq<Schedule>) -> Seq<Schedule> {
    if stack.len() == 0 {
        stack
    } else {
        match stack.last() {
            Schedule::Infinite(_) => stack,
            Schedule::Finite(c, d) => if c <= 1 {
                stack.drop_last()
            } else {
                stack.drop_last().push(Schedule::Finite((c - 1) as u32, d))
            },
        }
    }
}

/// The output pin capability the blinker drives. The embedder supplies the
/// implementation (typically an adapter over a HAL pin type); both operations
/// are fallible and their errors are passed through to the caller untouched.
pub trait OutputPin {
    type Error;

    /// Drive the pin to the low (off) logical state.
    fn set_low(&mut self) -> Result<(), Self::Error>;

    /// Invert the pin's current output state.
    fn toggle(&mut self) -> Result<(), Self::Error>;
}

/// Drives one output pin according to a stack of schedules with a fixed
/// capacity of `N`. Only the top schedule is active; the ones below resume
/// once every schedule pushed after them has retired.
pub struct Blinker<P: OutputPin, const N: usize> {
    pin: P,
    schedule: Vec<Schedule>,
}

impl<P: OutputPin, const N: usize> View for Blinker<P, N> {
    type V = Seq<Schedule>;

    closed spec fn view(&self) -> Seq<Schedule> {
        self.schedule@
    }
}

impl<P: OutputPin, const N: usize> Blinker<P, N> {
    /// The pin handle this blinker owns.
    pub closed spec fn pin_handle(&self) -> P {
        self.pin
    }

    /// Binds a pin handle and starts with an empty schedule stack. The pin's
    /// electrical state is not touched.
    pub fn new(pin: P) -> (r: Self)
        ensures
            r@ == Seq::<Schedule>::empty(),
            r.pin_handle() == pin,
    {
        Blinker { pin, schedule: Vec::new() }
    }

    /// Pushes a schedule onto the top of the stack, making it the active one.
    /// When the stack already holds `N` schedules the push fails, the rejected
    /// schedule is handed back unchanged, and the stack keeps its contents.
    /// The pin is not touched either way.
    pub fn push_schedule(&mut self, schedule: Schedule) -> (r: Result<(), Schedule>)
        ensures
            final(self).pin_handle() == old(self).pin_handle(),
            old(self)@.len() < N ==> r == Ok::<(), Schedule>(()) && final(self)@ == old(self)@.push(schedule),
            old(self)@.len() >= N ==> r == Err::<(), Schedule>(schedule) && final(self)@ == old(self)@,
    {
        if self.schedule.len() < N {
            self.schedule.push(schedule);
            Ok(())
        } else {
            Err(schedule)
        }
    }

    /// The phase of a step that runs before the wait: when a schedule is
    /// active, toggles the pin once and reports the interval to wait; on an
    /// empty stack it performs no pin operation and reports that there is
    /// nothing to wait for. The stack is never changed here; retirement is
    /// `decrease_count`, which the driver runs after the wait.
    pub fn begin_step(&mut self) -> (r: Result<Option<u64>, P::Error>)
        ensures
            final(self)@ == old(self)@,
            old(self)@.len() == 0 ==> r == Ok::<Option<u64>, P::Error>(None)
                && final(self).pin_handle() == old(self).pin_handle(),
            r matches Ok(Some(d)) ==> old(self)@.len() > 0 && d == interval_of(old(self)@.last()),
            r matches Ok(None) ==> old(self)@.len() == 0,
            r is Err ==> old(self)@.len() > 0,
    {
        let n: usize = self.schedule.len();
        if n > 0 {
            let s: Schedule = self.schedule[n - 1];
            match self.pin.toggle() {
                Ok(()) => {
                    let d: u64 = match s {
                        Schedule::Infinite(d) => d,
                        Schedule::Finite(_, d) => d,
                    };
                    Ok(Some(d))
                }
                Err(e) => Err(e),
            }
        } else {
            Ok(None)
        }
    }

    /// The retirement bookkeeping of a step, run after the wait: rewrites the
    /// stack as [`retire`] says and touches nothing else. On an empty stack,
    /// or with an infinite schedule on top, this is a no-op.
    pub fn decrease_count(&mut self)
        ensures
            final(self)@ == retire(old(self)@),
            final(self).pin_handle() == old(self).pin_handle(),
    {
        let n: usize = self.schedule.len();
        if n > 0 {
            match self.schedule[n - 1] {
                Schedule::Finite(c, d) => {
                    if c > 1 {
                        self.schedule.pop();
                        self.schedule.push(Schedule::Finite(c - 1, d));
                    } else {
                        self.schedule.pop();
                    }
                }
                Schedule::Infinite(_) => {}
            }
        }
    }

    /// The number of schedules currently on the stack.
    pub fn len(&self) -> (r: usize)
        ensures
            r == self@.len(),
    {
        self.schedule.len()
    }

    /// Whether the stack holds no schedule at all.
    pub fn is_empty(&self) -> (r: bool)
        ensures
            r == (self@.len() == 0),
    {
        self.schedule.len() == 0
    }

    /// Forces the pin low with a single write, then clears the whole stack.
    /// The write comes first: when it fails, its error is handed back and the
    /// stack keeps its contents, so a reset can be retried.
    pub fn reset(&mut self) -> (r: Result<(), P::Error>)
        ensures
            r is Ok ==> final(self)@ == Seq::<Schedule>::empty(),
            r is Err ==> final(self)@ == old(self)@,
    {
        match self.pin.set_low() {
            Ok(()) => {
                self.schedule.clear();
                Ok(())
            }
            Err(e) => Err(e),
        }
    }
}

} // verus!
