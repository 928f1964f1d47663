//! An address space made of pluggable components (RAM, ROM, I/O chips),
//! each of which may claim an address, with a log of every access.
use vstd::prelude::*;

verus! {

/// What an address that no component claims reads as.
pub const OPEN_BUS: u8 = 0xFF;

/// Whether an access read or wrote memory.
#[derive(Debug, Copy, Clone, PartialEq, Eq, Structural)]
pub enum AccessKind {
    Read,
    Write,
}

/// One logged memory access.
#[derive(Debug, Copy, Clone, PartialEq, Eq, Structural)]
pub struct AccessLog {
    pub kind: AccessKind,
    pub address: u16,
    pub byte: u8,
}

/// An interrupt that a component raises.
#[derive(Debug, Copy, Clone, PartialEq, Eq, Structural)]
pub enum InterruptPending {
    IRQ,
    NMI,
}

/// A device on the bus.
///
/// The spec functions describe a device as a state machine over its state,
/// held as bytes. They bind a device only when it says it obeys them
/// (`obeys_component_spec`); a device that keeps the defaults promises
/// nothing beyond the types.
pub trait Component {
    /// Whether the spec functions below describe this device.
    open spec fn obeys_component_spec(&self) -> bool {
        false
    }

    /// The device's state.
    open spec fn state(&self) -> Seq<u8> {
        Seq::empty()
    }

    /// What the device answers to a read of `address`: the byte, or `None`
    /// if it does not claim the address.
    open spec fn spec_read(&self, address: u16) -> Option<u8> {
        None
    }

    /// The state after a read of `address`.
    open spec fn state_after_read(&self, address: u16) -> Seq<u8> {
        self.state()
    }

    /// Whether the device claims a write to `address`.
    open spec fn spec_claims_write(&self, address: u16) -> bool {
        false
    }

    /// The state after a write of `byte` at `address`.
    open spec fn state_after_write(&self, address: u16, byte: u8) -> Seq<u8> {
        self.state()
    }

    /// What the device answers to a read of `at` after a write of `byte` at
    /// `address`.
    open spec fn read_after_write(&self, address: u16, byte: u8, at: u16) -> Option<u8> {
        self.spec_read(at)
    }

    /// The interrupt the device raises when advanced by `cycles` cycles.
    open spec fn spec_tick(&self, cycles: usize) -> Option<InterruptPending> {
        None
    }

    /// The state after being advanced by `cycles` cycles.
    open spec fn state_after_tick(&self, cycles: usize) -> Seq<u8> {
        self.state()
    }

    /// The byte at `address`, or `None` if the device does not claim it.
    fn read_byte(&mut self, address: u16) -> (r: Option<u8>)
        ensures
            old(self).obeys_component_spec() ==> {
                &&& r == old(self).spec_read(address)
                &&& final(self).obeys_component_spec()
                &&& final(self).state() == old(self).state_after_read(address)
            },
    ;

    /// Stores `byte` at `address`; `None` if the device does not claim it.
    fn write_byte(&mut self, address: u16, byte: u8) -> (r: Option<()>)
        ensures
            old(self).obeys_component_spec() ==> {
                &&& (r is Some <==> old(self).spec_claims_write(address))
                &&& final(self).obeys_component_spec()
                &&& final(self).state() == old(self).state_after_write(address, byte)
                &&& forall|at: u16| #[trigger] final(self).spec_read(at) == old(self).read_after_write(address, byte, at)
            },
    ;

    /// Advances the device by `cycles` clock cycles; the interrupt it
    /// raises, if any.
    fn tick(&mut self, cycles: usize) -> (r: Option<InterruptPending>)
        ensures
            old(self).obeys_component_spec() ==> {
                &&& r == old(self).spec_tick(cycles)
                &&& final(self).obeys_component_spec()
                &&& final(self).state() == old(self).state_after_tick(cycles)
            },
    ;
}

/// The byte a read returns given the first claim it met, if any.
pub open spec fn read_result(claim: Option<u8>) -> u8 {
    match claim {
        Some(b) => b,
        None => OPEN_BUS,
    }
}

/// The interrupt that wins among those raised: none if none was raised,
/// NMI if any NMI was raised, IRQ otherwise.
pub open spec fn winning_interrupt(raised: Seq<InterruptPending>) -> Option<InterruptPending> {
    if raised.len() == 0 {
        None
    } else if raised.contains(InterruptPending::NMI) {
        Some(InterruptPending::NMI)
    } else {
        Some(InterruptPending::IRQ)
    }
}

/// An NMI outranks an IRQ: a tick raises NMI when any device raised one,
/// IRQ when devices raised only IRQs, and nothing when none raised any.
pub proof fn lemma_nmi_outranks_irq(raised: Seq<InterruptPending>)
    ensures
        raised.len() == 0 ==> winning_interrupt(raised) is None,
        (exists|i: int| 0 <= i < raised.len() && raised[i] == InterruptPending::NMI) ==> winning_interrupt(raised)
            == Some(InterruptPending::NMI),
        raised.len() > 0 && (forall|i: int| 0 <= i < raised.len() ==> raised[i] == InterruptPending::IRQ)
            ==> winning_interrupt(raised) == Some(InterruptPending::IRQ),
{
    if raised.len() > 0 && (forall|i: int| 0 <= i < raised.len() ==> raised[i] == InterruptPending::IRQ) {
        if raised.contains(InterruptPending::NMI) {
            let i = choose|i: int| 0 <= i < raised.len() && raised[i] == InterruptPending::NMI;
            assert(raised[i] == InterruptPending::IRQ);
        }
    }
}

/// The interrupt that wins among those raised in one tick.
pub fn highest_interrupt(raised: &Vec<InterruptPending>) -> (r: Option<InterruptPending>)
    ensures
        r == winning_interrupt(raised@),
{
    if raised.len() == 0 {
        return None;
    }
    let n = raised.len();
    for i in 0..n
        invariant
            n == raised@.len(),
            forall|j: int| 0 <= j < i ==> raised@[j] != InterruptPending::NMI,
    {
        if raised[i] == InterruptPending::NMI {
            assert(raised@[i as int] == InterruptPending::NMI);
            return Some(InterruptPending::NMI);
        }
    }
    assert(!raised@.contains(InterruptPending::NMI));
    Some(InterruptPending::IRQ)
}

/// Whether every device obeys the spec functions of `Component`.
pub open spec fn all_obey(devices: Seq<Box<dyn Component>>) -> bool {
    forall|j: int| 0 <= j < devices.len() ==> (#[trigger] devices[j]).obeys_component_spec()
}

/// The answer to a read of `address` from the devices `i..` in the order
/// given: the first claim among them, if any.
pub open spec fn claim_from(devices: Seq<Box<dyn Component>>, address: u16, i: int) -> Option<u8>
    decreases devices.len() - i,
{
    if i < 0 || i >= devices.len() {
        None
    } else {
        match devices[i].spec_read(address) {
            Some(b) => Some(b),
            None => claim_from(devices, address, i + 1),
        }
    }
}

/// The first of the devices `i..` that answers a read of `address`; the
/// number of devices if none does.
pub open spec fn first_reader(devices: Seq<Box<dyn Component>>, address: u16, i: int) -> int
    decreases devices.len() - i,
{
    if i < 0 || i >= devices.len() {
        devices.len() as int
    } else if devices[i].spec_read(address) is Some {
        i
    } else {
        first_reader(devices, address, i + 1)
    }
}

/// The first of the devices `i..` that claims a write to `address`; the
/// number of devices if none does.
pub open spec fn first_writer(devices: Seq<Box<dyn Component>>, address: u16, i: int) -> int
    decreases devices.len() - i,
{
    if i < 0 || i >= devices.len() {
        devices.len() as int
    } else if devices[i].spec_claims_write(address) {
        i
    } else {
        first_writer(devices, address, i + 1)
    }
}

/// Whether `after` is what a read of `address` that stopped at device `k`
/// leaves of `before`: the devices up to `k` answered the read, the devices
/// after it were not asked.
pub open spec fn read_stopped_at(
    before: Seq<Box<dyn Component>>,
    after: Seq<Box<dyn Component>>,
    address: u16,
    k: int,
) -> bool {
    &&& after.len() == before.len()
    &&& forall|j: int| 0 <= j < before.len() && j <= k ==> {
        &&& (#[trigger] after[j]).obeys_component_spec()
        &&& after[j].state() == before[j].state_after_read(address)
    }
    &&& forall|j: int| k < j < before.len() ==> #[trigger] after[j] == before[j]
}

/// Whether `after` is what a write of `byte` at `address` that stopped at
/// device `k` leaves of `before`: the devices up to `k` took the write, the
/// devices after it were not asked.
pub open spec fn write_stopped_at(
    before: Seq<Box<dyn Component>>,
    after: Seq<Box<dyn Component>>,
    address: u16,
    byte: u8,
    k: int,
) -> bool {
    &&& after.len() == before.len()
    &&& forall|j: int| 0 <= j < before.len() && j <= k ==> {
        &&& (#[trigger] after[j]).obeys_component_spec()
        &&& after[j].state() == before[j].state_after_write(address, byte)
        &&& forall|at: u16| #[trigger] after[j].spec_read(at) == before[j].read_after_write(address, byte, at)
    }
    &&& forall|j: int| k < j < before.len() ==> #[trigger] after[j] == before[j]
}

/// The answer of the devices `i..` to a read is the answer of the devices
/// `k..` when none of the devices `i..k` claims the read.
proof fn lemma_claim_skips(devices: Seq<Box<dyn Component>>, address: u16, i: int, k: int)
    requires
        0 <= i <= k <= devices.len(),
        forall|j: int| i <= j < k ==> (#[trigger] devices[j]).spec_read(address) is None,
    ensures
        claim_from(devices, address, i) == claim_from(devices, address, k),
    decreases k - i,
{
    if i < k {
        lemma_claim_skips(devices, address, i + 1, k);
    }
}

/// A write is read back from the bus: after a write of `byte` at `address`,
/// a read of `address` answers `byte` when the device that took the write
/// reads it back and no device before it answers reads of `address` after
/// the write.
pub proof fn lemma_write_read_back(
    before: Seq<Box<dyn Component>>,
    after: Seq<Box<dyn Component>>,
    address: u16,
    byte: u8,
)
    requires
        all_obey(before),
        write_stopped_at(before, after, address, byte, first_writer(before, address, 0)),
        first_writer(before, address, 0) < before.len(),
        before[first_writer(before, address, 0)].read_after_write(address, byte, address) == Some(byte),
        forall|j: int| 0 <= j < first_writer(before, address, 0) ==> (#[trigger] before[j]).read_after_write(
            address,
            byte,
            address,
        ) is None,
    ensures
        read_result(claim_from(after, address, 0)) == byte,
{
    let k = first_writer(before, address, 0);
    lemma_first_writer_in_range(before, address, 0);
    assert forall|j: int| 0 <= j < k implies (#[trigger] after[j]).spec_read(address) is None by {
        assert(after[j].spec_read(address) == before[j].read_after_write(address, byte, address));
    }
    lemma_claim_skips(after, address, 0, k);
    assert(after[k].spec_read(address) == before[k].read_after_write(address, byte, address));
}

/// The first device that claims a write is at or after where the search
/// starts.
proof fn lemma_first_writer_in_range(devices: Seq<Box<dyn Component>>, address: u16, i: int)
    requires
        0 <= i,
    ensures
        i <= first_writer(devices, address, i) <= devices.len() || i > devices.len(),
    decreases devices.len() - i,
{
    if i < devices.len() && !devices[i].spec_claims_write(address) {
        lemma_first_writer_in_range(devices, address, i + 1);
    }
}

/// Whether every device of `after` is its counterpart in `before` advanced
/// once by `cycles` cycles.
pub open spec fn all_ticked(before: Seq<Box<dyn Component>>, after: Seq<Box<dyn Component>>, cycles: usize) -> bool {
    &&& after.len() == before.len()
    &&& forall|j: int| 0 <= j < before.len() ==> {
        &&& (#[trigger] after[j]).obeys_component_spec()
        &&& after[j].state() == before[j].state_after_tick(cycles)
    }
}

/// The interrupts the devices raise when each is advanced by `cycles`
/// cycles, in device order.
pub open spec fn raised_by(devices: Seq<Box<dyn Component>>, cycles: usize) -> Seq<InterruptPending>
    decreases devices.len(),
{
    if devices.len() == 0 {
        Seq::empty()
    } else {
        let earlier = raised_by(devices.drop_last(), cycles);
        match devices.last().spec_tick(cycles) {
            Some(x) => earlier.push(x),
            None => earlier,
        }
    }
}

/// Whether one of the devices raises `x` when advanced by `cycles` cycles.
pub open spec fn some_device_raises(devices: Seq<Box<dyn Component>>, cycles: usize, x: InterruptPending) -> bool {
    exists|j: int| 0 <= j < devices.len() && (#[trigger] devices[j]).spec_tick(cycles) == Some(x)
}

/// Some device raises an interrupt exactly when the raised list is not
/// empty, and some device raises an NMI exactly when the list holds one.
proof fn lemma_raised_by(devices: Seq<Box<dyn Component>>, cycles: usize)
    ensures
        raised_by(devices, cycles).len() > 0 <==> exists|j: int|
            0 <= j < devices.len() && (#[trigger] devices[j]).spec_tick(cycles) is Some,
        raised_by(devices, cycles).contains(InterruptPending::NMI) <==> exists|j: int|
            0 <= j < devices.len() && (#[trigger] devices[j]).spec_tick(cycles) == Some(InterruptPending::NMI),
    decreases devices.len(),
{
    if devices.len() > 0 {
        let init = devices.drop_last();
        lemma_raised_by(init, cycles);
        let earlier = raised_by(init, cycles);
        let last = devices.len() - 1;
        assert forall|j: int| 0 <= j < init.len() implies #[trigger] init[j] == devices[j] by {}
        if devices[last].spec_tick(cycles) is Some {
            let x = devices[last].spec_tick(cycles).unwrap();
            assert(earlier.push(x)[earlier.len() as int] == x);
            if x == InterruptPending::NMI {
                assert(earlier.push(x).contains(InterruptPending::NMI));
            } else {
                assert forall|y: InterruptPending| earlier.push(x).contains(y) implies earlier.contains(y) || y == x by {
                    let i = choose|i: int| 0 <= i < earlier.push(x).len() && earlier.push(x)[i] == y;
                    if i < earlier.len() {
                        assert(earlier.push(x)[i] == earlier[i]);
                    }
                }
                if earlier.contains(InterruptPending::NMI) {
                    let i = choose|i: int| 0 <= i < earlier.len() && earlier[i] == InterruptPending::NMI;
                    assert(earlier.push(x)[i] == earlier[i]);
                }
            }
        }
        if exists|j: int| 0 <= j < devices.len() && (#[trigger] devices[j]).spec_tick(cycles) is Some {
            let j = choose|j: int| 0 <= j < devices.len() && (#[trigger] devices[j]).spec_tick(cycles) is Some;
            if j < last {
                assert(init[j] == devices[j]);
            }
        }
        if exists|j: int| 0 <= j < devices.len() && (#[trigger] devices[j]).spec_tick(cycles) == Some(InterruptPending::NMI) {
            let j = choose|j: int| 0 <= j < devices.len() && (#[trigger] devices[j]).spec_tick(cycles) == Some(InterruptPending::NMI);
            if j < last {
                assert(init[j] == devices[j]);
            }
        }
    }
}

/// Whether `w` lists the devices of `v` in another order: device `i` of `w`
/// is device `order[i]` of `v`, and every device of `v` is listed.
pub open spec fn is_reordering(v: Seq<Box<dyn Component>>, w: Seq<Box<dyn Component>>, order: Seq<int>) -> bool {
    &&& w.len() == v.len()
    &&& order.len() == w.len()
    &&& forall|i: int| 0 <= i < w.len() ==> 0 <= #[trigger] order[i] < v.len() && w[i] == v[order[i]]
    &&& forall|k: int| 0 <= k < v.len() ==> #[trigger] lists(order, k)
}

/// Whether `order` lists the index `k`.
pub open spec fn lists(order: Seq<int>, k: int) -> bool {
    exists|i: int| 0 <= i < order.len() && order[i] == k
}

/// The interrupt that a tick of the whole bus raises does not depend on the
/// order of the devices: two buses holding the same devices, in any order,
/// raise the same interrupt.
pub proof fn lemma_tick_order_free(v: Seq<Box<dyn Component>>, w: Seq<Box<dyn Component>>, order: Seq<int>, cycles: usize)
    requires
        is_reordering(v, w, order),
    ensures
        winning_interrupt(raised_by(v, cycles)) == winning_interrupt(raised_by(w, cycles)),
{
    lemma_raised_by(v, cycles);
    lemma_raised_by(w, cycles);
    assert forall|x: InterruptPending| #[trigger] some_device_raises(v, cycles, x) <==> some_device_raises(w, cycles, x) by {
        if some_device_raises(v, cycles, x) {
            let k = choose|k: int| 0 <= k < v.len() && (#[trigger] v[k]).spec_tick(cycles) == Some(x);
            assert(lists(order, k));
            let i = choose|i: int| 0 <= i < order.len() && order[i] == k;
            assert(w[i] == v[k]);
        }
        if some_device_raises(w, cycles, x) {
            let i = choose|i: int| 0 <= i < w.len() && (#[trigger] w[i]).spec_tick(cycles) == Some(x);
            assert(w[i] == v[order[i]]);
        }
    }
    let irq = InterruptPending::IRQ;
    let nmi = InterruptPending::NMI;
    assert(some_device_raises(v, cycles, irq) == some_device_raises(w, cycles, irq));
    assert(some_device_raises(v, cycles, nmi) == some_device_raises(w, cycles, nmi));
    lemma_raises_some(v, cycles);
    lemma_raises_some(w, cycles);
}

/// A device raises some interrupt exactly when it raises an IRQ or an NMI.
proof fn lemma_raises_some(devices: Seq<Box<dyn Component>>, cycles: usize)
    ensures
        (exists|j: int| 0 <= j < devices.len() && (#[trigger] devices[j]).spec_tick(cycles) is Some)
            <==> some_device_raises(devices, cycles, InterruptPending::IRQ)
            || some_device_raises(devices, cycles, InterruptPending::NMI),
{
    if exists|j: int| 0 <= j < devices.len() && (#[trigger] devices[j]).spec_tick(cycles) is Some {
        let j = choose|j: int| 0 <= j < devices.len() && (#[trigger] devices[j]).spec_tick(cycles) is Some;
        match devices[j].spec_tick(cycles) {
            Some(InterruptPending::IRQ) => assert(some_device_raises(devices, cycles, InterruptPending::IRQ)),
            Some(InterruptPending::NMI) => assert(some_device_raises(devices, cycles, InterruptPending::NMI)),
            None => {},
        }
    }
}

/// The devices on the bus, asked in order, and the access log.
pub struct Components {
    components: Vec<Box<dyn Component>>,
    log: Vec<AccessLog>,
}

impl Components {
    /// The devices on the bus, in the order they are asked.
    pub closed spec fn devices(&self) -> Seq<Box<dyn Component>> {
        self.components@
    }

    /// The number of devices on the bus.
    pub open spec fn device_count(&self) -> nat {
        self.devices().len()
    }

    /// Every access so far, oldest first.
    pub closed spec fn accesses(&self) -> Seq<AccessLog> {
        self.log@
    }

    /// A bus with the given devices, in the given order, and an empty log.
    pub fn new(components: Vec<Box<dyn Component>>) -> (s: Self)
        ensures
            s.devices() == components@,
            s.accesses() == Seq::<AccessLog>::empty(),
    {
        Self { components, log: Vec::with_capacity(100) }
    }

    /// The access log, oldest first.
    pub fn log(&self) -> (l: &Vec<AccessLog>)
        ensures
            l@ == self.accesses(),
    {
        &self.log
    }

    /// Logs a read of `address` given the first claim it met, and returns
    /// the byte read.
    pub fn record_read(&mut self, address: u16, claim: Option<u8>) -> (byte: u8)
        ensures
            byte == read_result(claim),
            final(self).devices() == old(self).devices(),
            final(self).accesses() == old(self).accesses().push(
                AccessLog { kind: AccessKind::Read, address, byte },
            ),
    {
        let byte = match claim {
            Some(b) => b,
            None => OPEN_BUS,
        };
        self.log.push(AccessLog { kind: AccessKind::Read, address, byte });
        byte
    }

    /// Reads `address` from the first device that claims it (later devices
    /// are not asked); `0xFF` if none does. The read is logged.
    pub fn read_byte(&mut self, address: u16) -> (byte: u8)
        ensures
            final(self).device_count() == old(self).device_count(),
            final(self).accesses() == old(self).accesses().push(
                AccessLog { kind: AccessKind::Read, address, byte },
            ),
            all_obey(old(self).devices()) ==> {
                &&& byte == read_result(claim_from(old(self).devices(), address, 0))
                &&& read_stopped_at(old(self).devices(), final(self).devices(), address,
                    first_reader(old(self).devices(), address, 0))
            },
    {
        let ghost before = self.components@;
        let n = self.components.len();
        let mut claim: Option<u8> = None;
        let mut i: usize = 0;
        while i < n && claim.is_none()
            invariant
                n == self.components@.len(),
                n == before.len(),
                before == old(self).components@,
                self.log@ == old(self).log@,
                i <= n,
                forall|j: int| i <= j < n ==> self.components@[j] == before[j],
                all_obey(before) ==> forall|j: int| 0 <= j < i ==> {
                    &&& (#[trigger] self.components@[j]).obeys_component_spec()
                    &&& self.components@[j].state() == before[j].state_after_read(address)
                },
                claim is None ==> (all_obey(before) ==> {
                    &&& claim_from(before, address, 0) == claim_from(before, address, i as int)
                    &&& first_reader(before, address, 0) == first_reader(before, address, i as int)
                }),
                claim is Some ==> (0 < i && (all_obey(before) ==> {
                    &&& claim == claim_from(before, address, 0)
                    &&& first_reader(before, address, 0) == i - 1
                })),
            decreases n - i,
        {
            let r = self.components[i].read_byte(address);
            proof {
                if all_obey(before) {
                    assert(before[i as int].obeys_component_spec());
                }
            }
            claim = r;
            i = i + 1;
        }
        self.record_read(address, claim)
    }

    /// Logs a write of `byte` at `address` if a device claimed it.
    pub fn record_write(&mut self, address: u16, byte: u8, claimed: bool)
        ensures
            final(self).devices() == old(self).devices(),
            final(self).accesses() == if claimed {
                old(self).accesses().push(AccessLog { kind: AccessKind::Write, address, byte })
            } else {
                old(self).accesses()
            },
    {
        if claimed {
            self.log.push(AccessLog { kind: AccessKind::Write, address, byte });
        }
    }

    /// Writes `byte` at `address` into the first device that claims it
    /// (later devices are not asked). The write is logged exactly when a
    /// device claimed it.
    pub fn write_byte(&mut self, address: u16, byte: u8)
        ensures
            final(self).device_count() == old(self).device_count(),
            all_obey(old(self).devices()) ==> {
                let k = first_writer(old(self).devices(), address, 0);
                &&& final(self).accesses() == if k < old(self).device_count() {
                    old(self).accesses().push(AccessLog { kind: AccessKind::Write, address, byte })
                } else {
                    old(self).accesses()
                }
                &&& write_stopped_at(old(self).devices(), final(self).devices(), address, byte, k)
            },
    {
        let ghost before = self.components@;
        let n = self.components.len();
        let mut claimed = false;
        let mut i: usize = 0;
        while i < n && !claimed
            invariant
                n == self.components@.len(),
                n == before.len(),
                before == old(self).components@,
                self.log@ == old(self).log@,
                i <= n,
                forall|j: int| i <= j < n ==> self.components@[j] == before[j],
                all_obey(before) ==> forall|j: int| 0 <= j < i ==> {
                    &&& (#[trigger] self.components@[j]).obeys_component_spec()
                    &&& self.components@[j].state() == before[j].state_after_write(address, byte)
                    &&& forall|at: u16| #[trigger] self.components@[j].spec_read(at) == before[j].read_after_write(
                        address,
                        byte,
                        at,
                    )
                },
                !claimed ==> (all_obey(before) ==> first_writer(before, address, 0) == first_writer(
                    before,
                    address,
                    i as int,
                )),
                claimed ==> (0 < i && (all_obey(before) ==> first_writer(before, address, 0) == i - 1)),
            decreases n - i,
        {
            let r = self.components[i].write_byte(address, byte);
            proof {
                if all_obey(before) {
                    assert(before[i as int].obeys_component_spec());
                }
            }
            claimed = r.is_some();
            i = i + 1;
        }
        self.record_write(address, byte, claimed);
    }

    /// Advances every device by `cycles` cycles and returns the winning
    /// interrupt among those they raise.
    pub fn tick(&mut self, cycles: usize) -> (r: Option<InterruptPending>)
        ensures
            final(self).device_count() == old(self).device_count(),
            final(self).accesses() == old(self).accesses(),
            all_obey(old(self).devices()) ==> {
                &&& r == winning_interrupt(raised_by(old(self).devices(), cycles))
                &&& all_ticked(old(self).devices(), final(self).devices(), cycles)
            },
    {
        let ghost before = self.components@;
        let n = self.components.len();
        let mut raised: Vec<InterruptPending> = Vec::new();
        for i in 0..n
            invariant
                n == self.components@.len(),
                n == before.len(),
                before == old(self).components@,
                self.log@ == old(self).log@,
                forall|j: int| i <= j < n ==> self.components@[j] == before[j],
                all_obey(before) ==> {
                    &&& raised@ == raised_by(before.take(i as int), cycles)
                    &&& forall|j: int| 0 <= j < i ==> {
                        &&& (#[trigger] self.components@[j]).obeys_component_spec()
                        &&& self.components@[j].state() == before[j].state_after_tick(cycles)
                    }
                },
        {
            proof {
                assert(before.take(i + 1).drop_last() =~= before.take(i as int));
                assert(before.take(i + 1).last() == before[i as int]);
                if all_obey(before) {
                    assert(before[i as int].obeys_component_spec());
                }
            }
            match self.components[i].tick(cycles) {
                Some(interrupt) => raised.push(interrupt),
                None => {},
            }
        }
        assert(before.take(n as int) =~= before);
        highest_interrupt(&raised)
    }
}

} // verus!
