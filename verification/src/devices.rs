//! The kernel's collections of devices (gpio, serial ports, timers, displays, random number
//! generators), the devices handed out from them, and the irq numbers a device uses.

use vstd::prelude::*;

verus! {

/// A device handed out from a collection: the device, while it is held, and the index of the
/// slot that it goes back to, or none for a device that goes back nowhere.
pub struct OwnedDevice<T> {
    /// The module that is contained
    pub module: Option<T>,
    /// The slot of the collection that the module goes back to
    pub home: Option<usize>,
}

impl<T> OwnedDevice<T> {
    /// Convert a device from one type of device to another, going back to the slot `home`
    /// once converted
    pub fn convert<U, F: FnOnce(T) -> U>(self, conversion: F, home: Option<usize>) -> (r:
        OwnedDevice<U>)
        requires
            self.module matches Some(m) ==> conversion.requires((m,)),
        ensures
            r.home == home,
            self.module is None ==> r.module is None,
            self.module matches Some(m) ==> (r.module matches Some(u) && conversion.ensures(
                (m,),
                u,
            )),
    {
        let m = match self.module {
            Some(m) => Some(conversion(m)),
            None => None,
        };
        OwnedDevice { module: m, home }
    }

    /// Build a self that does not get returned to anywhere, making it a free-range item
    pub fn free_range(t: T) -> (r: Self)
        ensures
            r.module == Some(t),
            r.home is None,
    {
        Self { module: Some(t), home: None }
    }
}

/// The gpio modules of the system.
pub struct GpioHandler<T> {
    /// The individual gpio modules
    gpios: Vec<T>,
}

impl<T> GpioHandler<T> {
    /// The modules, in the order they were registered.
    pub closed spec fn view(&self) -> Seq<T> {
        self.gpios@
    }

    /// Create a new empty set of gpio modules
    pub fn new() -> (r: Self)
        ensures
            r@ == Seq::<T>::empty(),
    {
        Self { gpios: Vec::new() }
    }

    /// Add a gpio module to the system
    pub fn register_gpios(&mut self, g: T)
        ensures
            final(self)@ == old(self)@.push(g),
    {
        self.gpios.push(g);
    }

    /// Get a gpio module
    pub fn module(&self, i: usize) -> (r: &T)
        requires
            i < self@.len(),
        ensures
            *r == self@[i as int],
    {
        &self.gpios[i]
    }
}

/// The serial ports of the system: each slot holds its port, or nothing while the port is
/// handed out.
pub struct SerialHandler<T> {
    /// The individual devices
    devs: Vec<Option<T>>,
}

impl<T> SerialHandler<T> {
    /// The slots, in the order the ports were registered.
    pub closed spec fn view(&self) -> Seq<Option<T>> {
        self.devs@
    }

    /// Create a new empty set of serial modules
    pub fn new() -> (r: Self)
        ensures
            r@ == Seq::<Option<T>>::empty(),
    {
        Self { devs: Vec::new() }
    }

    /// Add a serial module to the system
    pub fn register_serial(&mut self, m: T)
        ensures
            final(self)@ == old(self)@.push(Some(m)),
    {
        self.devs.push(Some(m));
    }

    /// Does the module index exist?
    pub fn has_module(&self, i: usize) -> (r: bool)
        ensures
            r == (i < self@.len() && self@[i as int] is Some),
    {
        i < self.devs.len() && self.devs[i].is_some()
    }

    /// Borrow a serial module
    pub fn borrow_module(&self, i: usize) -> (r: &Option<T>)
        requires
            i < self@.len(),
        ensures
            *r == self@[i as int],
    {
        &self.devs[i]
    }

    /// All the slots, in order
    pub fn iter(&self) -> (r: &[Option<T>])
        ensures
            r@ == self@,
    {
        self.devs.as_slice()
    }

    /// Take a serial device out of its slot, to be given back to slot `i`; nothing when the
    /// slot does not exist or is empty
    pub fn take_device(&mut self, i: usize) -> (r: Option<OwnedDevice<T>>)
        ensures
            i < old(self)@.len() && old(self)@[i as int] is Some ==> {
                &&& r matches Some(d) && d.module == old(self)@[i as int] && d.home == Some(i)
                &&& final(self)@ == old(self)@.update(i as int, None)
            },
            !(i < old(self)@.len() && old(self)@[i as int] is Some) ==> {
                &&& r is None
                &&& final(self)@ == old(self)@
            },
    {
        if i < self.devs.len() {
            let mut slot: Option<T> = None;
            std::mem::swap(&mut slot, &mut self.devs[i]);
            match slot {
                Some(m) => Some(OwnedDevice { module: Some(m), home: Some(i) }),
                None => None,
            }
        } else {
            None
        }
    }

    /// Give a serial module back to slot `i`; a slot that holds a module keeps it
    pub fn return_module(&mut self, i: usize, m: T)
        requires
            i < old(self)@.len(),
        ensures
            old(self)@[i as int] is None ==> final(self)@ == old(self)@.update(i as int, Some(m)),
            old(self)@[i as int] is Some ==> final(self)@ == old(self)@,
    {
        if self.devs[i].is_none() {
            self.devs.set(i, Some(m));
        }
    }
}

/// Giving a device back to the slot it was taken from restores the collection.
pub proof fn lemma_take_then_return<T>(before: Seq<Option<T>>, taken: Seq<Option<T>>, i: int, m: T)
    requires
        0 <= i < before.len(),
        before[i] == Some(m),
        taken == before.update(i, None),
    ensures
        taken[i] is None,
        taken.update(i, Some(m)) == before,
{
    assert(taken.update(i, Some(m)) =~= before);
}

/// A collection of shared devices: they are registered in turn and looked up by index.
pub struct DeviceList<T> {
    /// The devices
    items: Vec<T>,
}

impl<T> DeviceList<T> {
    /// The devices, in the order they were registered.
    pub closed spec fn view(&self) -> Seq<T> {
        self.items@
    }

    /// An empty collection
    pub fn new() -> (r: Self)
        ensures
            r@ == Seq::<T>::empty(),
    {
        Self { items: Vec::new() }
    }

    /// Add a device
    pub fn register(&mut self, m: T)
        ensures
            final(self)@ == old(self)@.push(m),
    {
        self.items.push(m);
    }

    /// Does the device index exist?
    pub fn has_module(&self, i: usize) -> (r: bool)
        ensures
            r == (i < self@.len()),
    {
        i < self.items.len()
    }

    /// Get a device
    pub fn module(&self, i: usize) -> (r: &T)
        requires
            i < self@.len(),
        ensures
            *r == self@[i as int],
    {
        &self.items[i]
    }
}

/// Tracks all timers in the kernel
pub struct TimerHandler<T> {
    /// The timer providers
    pub timerp: DeviceList<T>,
}

impl<T> TimerHandler<T> {
    /// Create a new empty set of timers
    pub fn new() -> (r: Self)
        ensures
            r.timerp@ == Seq::<T>::empty(),
    {
        Self { timerp: DeviceList::new() }
    }

    /// Add a timer to the system
    pub fn register_timer(&mut self, m: T)
        ensures
            final(self).timerp@ == old(self).timerp@.push(m),
    {
        self.timerp.register(m);
    }

    /// Get a timer
    pub fn module(&self, i: usize) -> (r: &T)
        requires
            i < self.timerp@.len(),
        ensures
            *r == self.timerp@[i as int],
    {
        self.timerp.module(i)
    }
}

/// Tracks all displays in the kernel
pub struct DisplayHandler<T> {
    /// The displays
    pub displays: DeviceList<T>,
}

impl<T> DisplayHandler<T> {
    /// Create a new handler
    pub fn new() -> (r: Self)
        ensures
            r.displays@ == Seq::<T>::empty(),
    {
        Self { displays: DeviceList::new() }
    }

    /// Register a display
    pub fn register_display(&mut self, d: T)
        ensures
            final(self).displays@ == old(self).displays@.push(d),
    {
        self.displays.register(d);
    }

    /// Does the module index exist?
    pub fn has_module(&self, i: usize) -> (r: bool)
        ensures
            r == (i < self.displays@.len()),
    {
        self.displays.has_module(i)
    }

    /// Get a display module
    pub fn module(&self, i: usize) -> (r: &T)
        requires
            i < self.displays@.len(),
        ensures
            *r == self.displays@[i as int],
    {
        self.displays.module(i)
    }
}

/// Tracks all rng devices in the kernel
pub struct RngHandler<T> {
    /// The random number generators
    pub rng: DeviceList<T>,
}

impl<T> RngHandler<T> {
    /// Create a new empty set of random number generators
    pub fn new() -> (r: Self)
        ensures
            r.rng@ == Seq::<T>::empty(),
    {
        Self { rng: DeviceList::new() }
    }

    /// Add a random number generator to the system
    pub fn register_rng(&mut self, m: T)
        ensures
            final(self).rng@ == old(self).rng@.push(m),
    {
        self.rng.register(m);
    }

    /// Does the module index exist?
    pub fn has_module(&self, i: usize) -> (r: bool)
        ensures
            r == (i < self.rng@.len()),
    {
        self.rng.has_module(i)
    }

    /// Get a rng module
    pub fn module(&self, i: usize) -> (r: &T)
        requires
            i < self.rng@.len(),
        ensures
            *r == self.rng@[i as int],
    {
        self.rng.module(i)
    }
}

/// The irq numbers a device uses.
pub enum IrqNumbers {
    /// No irqs at all
    NoIrq,
    /// One irq
    Only1(u8),
    /// Two irq
    Only2([u8; 2]),
    /// Three irq
    Only3([u8; 3]),
    /// Four irq
    Only4([u8; 4]),
    /// Arbitrarily many irq
    Many(Vec<u8>),
}

impl IrqNumbers {
    /// The irq numbers, in order.
    pub open spec fn numbers(&self) -> Seq<u8> {
        match self {
            IrqNumbers::NoIrq => Seq::empty(),
            IrqNumbers::Only1(a) => seq![*a],
            IrqNumbers::Only2(a) => a@,
            IrqNumbers::Only3(a) => a@,
            IrqNumbers::Only4(a) => a@,
            IrqNumbers::Many(v) => v@,
        }
    }

    /// Iterate over the irq numbers
    pub fn iter(&self) -> (r: IrqNumbersIter<'_>)
        ensures
            r.index == 0,
            r.numbers == self,
    {
        IrqNumbersIter { index: 0, numbers: self }
    }
}

/// An iterator over irq numbers
pub struct IrqNumbersIter<'a> {
    /// The index of iteration
    pub index: u8,
    /// The actual numbers
    pub numbers: &'a IrqNumbers,
}

impl<'a> IrqNumbersIter<'a> {
    /// The next irq number, if any; the index moves on either way
    pub fn next(&mut self) -> (r: Option<u8>)
        requires
            old(self).index < 255,
        ensures
            final(self).index == old(self).index + 1,
            final(self).numbers == old(self).numbers,
            r == (if (old(self).index as int) < old(self).numbers.numbers().len() {
                Some(old(self).numbers.numbers()[old(self).index as int])
            } else {
                None
            }),
    {
        let i = self.index as usize;
        let val = match self.numbers {
            IrqNumbers::NoIrq => None,
            IrqNumbers::Only1(a) => if i == 0 {
                Some(*a)
            } else {
                None
            },
            IrqNumbers::Only2(a) => if i < 2 {
                Some(a[i])
            } else {
                None
            },
            IrqNumbers::Only3(a) => if i < 3 {
                Some(a[i])
            } else {
                None
            },
            IrqNumbers::Only4(a) => if i < 4 {
                Some(a[i])
            } else {
                None
            },
            IrqNumbers::Many(items) => if i < items.len() {
                Some(items[i])
            } else {
                None
            },
        };
        self.index = self.index + 1;
        val
    }
}

/// The identity of a task.
#[derive(Clone, Copy, Debug, PartialEq, Eq)]
pub struct TaskId(pub usize);

impl TaskId {
    /// Get the value
    pub fn value(&self) -> (r: usize)
        ensures
            r == self.0,
    {
        self.0
    }
}

/// A system that only will be used on startup: it does nothing.
#[derive(Clone, Copy, Debug)]
pub struct NullSystem {}

/// The system the kernel runs on.
#[derive(Clone, Copy, Debug)]
pub enum System {
    /// A dummy do nothing system
    NullSys(NullSystem),
}

impl NullSystem {
    /// Create a new system that does nothing.
    pub fn new_sys() -> (r: System)
        ensures
            r == System::NullSys(NullSystem {  }),
    {
        System::NullSys(Self {  })
    }
}

} // verus!
