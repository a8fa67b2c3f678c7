//! Finding the USB host controller on the PCI bus, one configuration access at a time.

use vstd::prelude::*;

verus! {

/// The port that selects a configuration register.
pub const CONFIG_ADDRESS: u16 = 0xcf8;

/// The port that carries the selected register.
pub const CONFIG_DATA: u16 = 0xcfc;

/// Serial bus, USB, xHCI: the class, subclass and programming interface together.
pub const CLASS_XHCI: u32 = 0x0c_0330;

/// Memory decoding and bus mastering, in the command register.
pub const COMMAND_BITS: u32 = 0x0000_0006;

/// The bit of the header register that says a device has more than one function.
pub const MULTI_FUNCTION: u32 = 0x80_0000;

/// A USB host controller that was found, and where its registers lie in memory.
#[derive(Debug, Clone, Copy, PartialEq, Eq, Structural)]
pub struct XhciController {
    pub bus: u8,
    pub device: u8,
    pub function: u8,
    pub mmio_base: u64,
}

/// A function of a device on a bus.
#[derive(Debug, Clone, Copy, PartialEq, Eq, Structural)]
pub struct Place {
    pub bus: u8,
    pub device: u8,
    pub function: u8,
}

/// The number that selects a configuration register.
pub open spec fn register_address(place: Place, offset: u8) -> u32 {
    0x8000_0000u32 | ((place.bus as u32) << 16u32) | ((place.device as u32) << 11u32) | ((
    place.function as u32) << 8u32) | (offset as u32 & 0xfc)
}

/// The number that selects a configuration register.
pub fn config_address(place: Place, offset: u8) -> (address: u32)
    ensures
        address == register_address(place, offset),
{
    0x8000_0000u32 | ((place.bus as u32) << 16u32) | ((place.device as u32) << 11u32) | ((
    place.function as u32) << 8u32) | (offset as u32 & 0xfc)
}

/// What to do next. The value read, or anything after a write, is handed to the next
/// step of the search.
#[derive(Debug, Clone, Copy, PartialEq, Eq, Structural)]
pub enum ScanAction {
    Read { address: u32 },
    Write { address: u32, value: u32 },
    Done(Option<XhciController>),
}

/// Where the search stands: which register of which function is looked at.
#[derive(Debug, Clone, Copy, PartialEq, Eq, Structural)]
pub enum XhciScan {
    Identity { at: Place },
    Class { at: Place },
    LowBase { at: Place },
    HighBase { at: Place, low: u32 },
    Command { at: Place, base: u64 },
    Enable { at: Place, base: u64, command: u32 },
    Header { at: Place },
    Finished { found: Option<XhciController> },
}

/// The memory address in a base register, without its flag bits.
pub open spec fn base_bits(low: u32) -> int {
    low - low % 16
}

/// The next device, or the end of the search behind the last one.
pub open spec fn next_device(at: Place) -> XhciScan {
    if at.device < 31 {
        XhciScan::Identity { at: Place { bus: at.bus, device: (at.device + 1) as u8, function: 0 } }
    } else if at.bus < u8::MAX {
        XhciScan::Identity { at: Place { bus: (at.bus + 1) as u8, device: 0, function: 0 } }
    } else {
        XhciScan::Finished { found: None }
    }
}

/// Where to look when a function is not a usable controller. Only the header of function
/// 0 tells whether a device has further functions.
pub open spec fn missed(at: Place) -> XhciScan {
    if at.function == 0 {
        XhciScan::Header { at }
    } else if at.function < 7 {
        XhciScan::Identity { at: Place { function: (at.function + 1) as u8, ..at } }
    } else {
        next_device(at)
    }
}

/// A controller whose registers lie at `base` is taken, unless that is no address.
pub open spec fn based(at: Place, base: int) -> XhciScan {
    if base == 0 {
        missed(at)
    } else {
        XhciScan::Command { at, base: base as u64 }
    }
}

impl XhciScan {
    /// Where the search starts.
    pub open spec fn start() -> XhciScan {
        XhciScan::Identity { at: Place { bus: 0, device: 0, function: 0 } }
    }

    /// What the search does here.
    pub open spec fn action_spec(self) -> ScanAction {
        match self {
            XhciScan::Identity { at } => ScanAction::Read { address: register_address(at, 0x00) },
            XhciScan::Class { at } => ScanAction::Read { address: register_address(at, 0x08) },
            XhciScan::LowBase { at } => ScanAction::Read { address: register_address(at, 0x10) },
            XhciScan::HighBase { at, .. } => ScanAction::Read {
                address: register_address(at, 0x14),
            },
            XhciScan::Command { at, .. } => ScanAction::Read {
                address: register_address(at, 0x04),
            },
            XhciScan::Enable { at, command, .. } => ScanAction::Write {
                address: register_address(at, 0x04),
                value: command | COMMAND_BITS,
            },
            XhciScan::Header { at } => ScanAction::Read { address: register_address(at, 0x0c) },
            XhciScan::Finished { found } => ScanAction::Done(found),
        }
    }

    /// Where the search goes, given what was read.
    pub open spec fn after(self, reply: u32) -> XhciScan {
        match self {
            XhciScan::Identity { at } => if reply % 0x1_0000 == 0xffff {
                missed(at)
            } else {
                XhciScan::Class { at }
            },
            XhciScan::Class { at } => if reply / 256 == CLASS_XHCI {
                XhciScan::LowBase { at }
            } else {
                missed(at)
            },
            XhciScan::LowBase { at } => if reply % 8 == 0 {
                based(at, base_bits(reply))
            } else if reply % 8 == 4 {
                XhciScan::HighBase { at, low: reply }
            } else {
                missed(at)
            },
            XhciScan::HighBase { at, low } => based(
                at,
                0x1_0000_0000 * reply + base_bits(low),
            ),
            XhciScan::Command { at, base } => XhciScan::Enable { at, base, command: reply },
            XhciScan::Enable { at, base, .. } => XhciScan::Finished {
                found: Some(
                    XhciController {
                        bus: at.bus,
                        device: at.device,
                        function: at.function,
                        mmio_base: base,
                    },
                ),
            },
            XhciScan::Header { at } => if reply & MULTI_FUNCTION == 0 {
                next_device(at)
            } else {
                XhciScan::Identity { at: Place { function: 1, ..at } }
            },
            XhciScan::Finished { .. } => self,
        }
    }

    /// The search before its first access.
    pub fn new() -> (scan: Self)
        ensures
            scan == Self::start(),
    {
        XhciScan::Identity { at: Place { bus: 0, device: 0, function: 0 } }
    }

    /// What to do here.
    pub fn action(&self) -> (action: ScanAction)
        ensures
            action == self.action_spec(),
    {
        match *self {
            XhciScan::Identity { at } => ScanAction::Read { address: config_address(at, 0x00) },
            XhciScan::Class { at } => ScanAction::Read { address: config_address(at, 0x08) },
            XhciScan::LowBase { at } => ScanAction::Read { address: config_address(at, 0x10) },
            XhciScan::HighBase { at, .. } => ScanAction::Read {
                address: config_address(at, 0x14),
            },
            XhciScan::Command { at, .. } => ScanAction::Read { address: config_address(at, 0x04) },
            XhciScan::Enable { at, command, .. } => ScanAction::Write {
                address: config_address(at, 0x04),
                value: command | COMMAND_BITS,
            },
            XhciScan::Header { at } => ScanAction::Read { address: config_address(at, 0x0c) },
            XhciScan::Finished { found } => ScanAction::Done(found),
        }
    }
}

fn device_after(at: Place) -> (scan: XhciScan)
    ensures
        scan == next_device(at),
{
    if at.device < 31 {
        XhciScan::Identity { at: Place { bus: at.bus, device: at.device + 1, function: 0 } }
    } else if at.bus < u8::MAX {
        XhciScan::Identity { at: Place { bus: at.bus + 1, device: 0, function: 0 } }
    } else {
        XhciScan::Finished { found: None }
    }
}

fn function_after(at: Place) -> (scan: XhciScan)
    ensures
        scan == missed(at),
{
    if at.function == 0 {
        XhciScan::Header { at }
    } else if at.function < 7 {
        XhciScan::Identity {
            at: Place { bus: at.bus, device: at.device, function: at.function + 1 },
        }
    } else {
        device_after(at)
    }
}

/// Takes a controller by its base address, where it has one.
fn take_base(at: Place, base: u64) -> (scan: XhciScan)
    ensures
        scan == based(at, base as int),
{
    if base == 0 {
        function_after(at)
    } else {
        XhciScan::Command { at, base }
    }
}

/// Looks at one function: what the register that was read says of it.
fn scan_function(scan: XhciScan, reply: u32) -> (next: XhciScan)
    ensures
        next == scan.after(reply),
{
    match scan {
        XhciScan::Identity { at } => if reply % 0x1_0000 == 0xffff {
            function_after(at)
        } else {
            XhciScan::Class { at }
        },
        XhciScan::Class { at } => if reply / 256 == CLASS_XHCI {
            XhciScan::LowBase { at }
        } else {
            function_after(at)
        },
        XhciScan::LowBase { at } => {
            if reply % 8 == 0 {
                take_base(at, (reply - reply % 16) as u64)
            } else if reply % 8 == 4 {
                XhciScan::HighBase { at, low: reply }
            } else {
                function_after(at)
            }
        },
        XhciScan::HighBase { at, low } => take_base(
            at,
            0x1_0000_0000 * (reply as u64) + (low - low % 16) as u64,
        ),
        XhciScan::Command { at, base } => XhciScan::Enable { at, base, command: reply },
        XhciScan::Enable { at, base, .. } => XhciScan::Finished {
            found: Some(
                XhciController {
                    bus: at.bus,
                    device: at.device,
                    function: at.function,
                    mmio_base: base,
                },
            ),
        },
        XhciScan::Header { at } => if reply & MULTI_FUNCTION == 0 {
            device_after(at)
        } else {
            XhciScan::Identity { at: Place { bus: at.bus, device: at.device, function: 1 } }
        },
        XhciScan::Finished { found } => XhciScan::Finished { found },
    }
}

/// Takes what the last access read and gives the next step of the search for the first
/// xHCI controller. The search ends by switching on memory decoding and bus mastering
/// of the controller that it found.
pub fn find_xhci_controller(scan: &mut XhciScan, reply: u32) -> (action: ScanAction)
    ensures
        *final(scan) == old(scan).after(reply),
        action == final(scan).action_spec(),
{
    let next: XhciScan = scan_function(*scan, reply);
    *scan = next;
    next.action()
}

impl Place {
    /// The bounds of the bus.
    pub open spec fn well_formed(self) -> bool {
        self.device < 32 && self.function < 8
    }

    /// The place in the order of the search.
    pub open spec fn number(self) -> int {
        256 * self.bus + 8 * self.device + self.function
    }
}

/// The place with a given number.
pub open spec fn place_at(number: int) -> Place {
    Place {
        bus: (number / 256) as u8,
        device: (number / 8 % 32) as u8,
        function: (number % 8) as u8,
    }
}

impl XhciScan {
    /// The bounds that the search keeps.
    pub open spec fn well_formed(self) -> bool {
        match self {
            XhciScan::Identity { at } => at.well_formed(),
            XhciScan::Class { at } => at.well_formed(),
            XhciScan::LowBase { at } => at.well_formed(),
            XhciScan::HighBase { at, .. } => at.well_formed(),
            XhciScan::Command { at, .. } => at.well_formed(),
            XhciScan::Enable { at, .. } => at.well_formed(),
            XhciScan::Header { at } => at.well_formed() && at.function == 0,
            XhciScan::Finished { .. } => true,
        }
    }

    /// An upper bound on the accesses that the search still makes.
    pub open spec fn accesses_left(self) -> nat {
        match self {
            XhciScan::Identity { at } => (7 * (0x1_0000 - at.number())) as nat,
            XhciScan::Class { at } => (7 * (0x1_0000 - at.number()) - 1) as nat,
            XhciScan::LowBase { at } => (7 * (0x1_0000 - at.number()) - 2) as nat,
            XhciScan::HighBase { at, .. } => (7 * (0x1_0000 - at.number()) - 3) as nat,
            XhciScan::Command { at, .. } => (7 * (0x1_0000 - at.number()) - 4) as nat,
            XhciScan::Enable { at, .. } => (7 * (0x1_0000 - at.number()) - 5) as nat,
            XhciScan::Header { at } => (7 * (0x1_0000 - at.number()) - 6) as nat,
            XhciScan::Finished { .. } => 0,
        }
    }
}

/// The search stays on the bus, and every access brings it nearer to its end.
pub proof fn law_scan_ends(scan: XhciScan, reply: u32)
    requires
        scan.well_formed(),
        !(scan is Finished),
    ensures
        scan.after(reply).well_formed(),
        scan.after(reply).accesses_left() < scan.accesses_left(),
{
}

/// The search writes once, as its last access, to the command register of the
/// controller that it reports: what it read there, with the two bits set.
pub proof fn law_scan_enables_what_it_finds(scan: XhciScan, reply: u32)
    ensures
        scan.action_spec() is Write <==> scan is Enable,
        !(scan is Finished) ==> (scan.after(reply) matches XhciScan::Finished {
            found: Some(controller),
        } ==> scan.action_spec() is Write && scan.action_spec()->Write_address
            == register_address(
            Place {
                bus: controller.bus,
                device: controller.device,
                function: controller.function,
            },
            0x04,
        )),
        scan.after(reply) is Enable ==> scan.action_spec() == (ScanAction::Read {
            address: register_address(scan.after(reply)->Enable_at, 0x04),
        }) && scan.after(reply).action_spec() == (ScanAction::Write {
            address: register_address(scan.after(reply)->Enable_at, 0x04),
            value: reply | COMMAND_BITS,
        }),
{
}

/// Different registers of the bus have different addresses.
pub proof fn law_registers_are_distinct(a: Place, b: Place, offset: u8, other: u8)
    requires
        a.well_formed(),
        b.well_formed(),
        offset % 4 == 0,
        other % 4 == 0,
        register_address(a, offset) == register_address(b, other),
    ensures
        a == b,
        offset == other,
{
    let (bus, device, function) = (a.bus, a.device, a.function);
    let (bus2, device2, function2) = (b.bus, b.device, b.function);
    assert(bus == bus2 && device == device2 && function == function2 && offset == other) by (
        bit_vector)
        requires
            device < 32,
            function < 8,
            device2 < 32,
            function2 < 8,
            offset % 4 == 0,
            other % 4 == 0,
            0x8000_0000u32 | ((bus as u32) << 16u32) | ((device as u32) << 11u32) | ((
            function as u32) << 8u32) | (offset as u32 & 0xfc) == 0x8000_0000u32 | ((
            bus2 as u32) << 16u32) | ((device2 as u32) << 11u32) | ((function2 as u32) << 8u32) | (
            other as u32 & 0xfc),
    ;
}

/// A configuration space: what reading each register gives.
pub type ConfigSpace = spec_fn(u32) -> u32;

/// Whether a device has a function at a place: function 0 always counts, the others only
/// where the header of function 0 says that there are more.
pub open spec fn has_function(space: ConfigSpace, place: Place) -> bool {
    place.function == 0 || space(register_address(Place { function: 0, ..place }, 0x0c))
        & MULTI_FUNCTION != 0
}

/// The base address of the xHCI controller at a place, where there is a usable one: the
/// identity is not all ones, the class is right, and the base register describes memory
/// at an address other than zero.
pub open spec fn controller_at(space: ConfigSpace, place: Place) -> Option<u64> {
    let low = space(register_address(place, 0x10));
    let high = space(register_address(place, 0x14));
    let base = if low % 8 == 0 {
        base_bits(low)
    } else if low % 8 == 4 {
        0x1_0000_0000 * high + base_bits(low)
    } else {
        0
    };
    if {
        &&& has_function(space, place)
        &&& space(register_address(place, 0x00)) % 0x1_0000 != 0xffff
        &&& space(register_address(place, 0x08)) / 256 == CLASS_XHCI
        &&& base != 0
    } {
        Some(base as u64)
    } else {
        None
    }
}

/// What the search finds in a configuration space.
pub open spec fn scan_result(space: ConfigSpace, scan: XhciScan) -> Option<XhciController>
    decreases scan.accesses_left(),
    when scan.well_formed()
{
    match scan {
        XhciScan::Finished { found } => found,
        _ => scan_result(
            space,
            scan.after(
                match scan.action_spec() {
                    ScanAction::Read { address } => space(address),
                    _ => 0,
                },
            ),
        ),
    }
}

/// What the search knows at each stage is true of the configuration space.
spec fn agrees(space: ConfigSpace, scan: XhciScan) -> bool {
    match scan {
        XhciScan::Identity { at } => has_function(space, at),
        XhciScan::Class { at } => has_function(space, at) && space(
            register_address(at, 0x00),
        ) % 0x1_0000 != 0xffff,
        XhciScan::LowBase { at } => has_function(space, at) && space(
            register_address(at, 0x00),
        ) % 0x1_0000 != 0xffff && space(register_address(at, 0x08)) / 256 == CLASS_XHCI,
        XhciScan::HighBase { at, low } => has_function(space, at) && space(
            register_address(at, 0x00),
        ) % 0x1_0000 != 0xffff && space(register_address(at, 0x08)) / 256 == CLASS_XHCI && low
            == space(register_address(at, 0x10)) && low % 8 == 4,
        XhciScan::Command { at, base } => controller_at(space, at) == Some(base),
        XhciScan::Enable { at, base, .. } => controller_at(space, at) == Some(base),
        XhciScan::Header { at } => controller_at(space, at) is None,
        XhciScan::Finished { .. } => false,
    }
}

/// The place that a stage of the search looks at.
spec fn from_number(scan: XhciScan) -> int {
    match scan {
        XhciScan::Identity { at } => at.number(),
        XhciScan::Class { at } => at.number(),
        XhciScan::LowBase { at } => at.number(),
        XhciScan::HighBase { at, .. } => at.number(),
        XhciScan::Command { at, .. } => at.number(),
        XhciScan::Enable { at, .. } => at.number(),
        XhciScan::Header { at } => at.number(),
        XhciScan::Finished { .. } => 0x1_0000,
    }
}

/// A result is the first controller from a place on.
pub open spec fn is_first_from(
    space: ConfigSpace,
    from: int,
    result: Option<XhciController>,
) -> bool {
    match result {
        Some(controller) => {
            let place = Place {
                bus: controller.bus,
                device: controller.device,
                function: controller.function,
            };
            &&& place.well_formed()
            &&& from <= place.number()
            &&& controller_at(space, place) == Some(controller.mmio_base)
            &&& forall|n: int|
                from <= n < place.number() ==> controller_at(space, #[trigger] place_at(n)) is None
        },
        None => forall|n: int|
            from <= n < 0x1_0000 ==> controller_at(space, #[trigger] place_at(n)) is None,
    }
}

proof fn lemma_place_number(place: Place)
    requires
        place.well_formed(),
    ensures
        place_at(place.number()) == place,
{
}

/// A result from a later place is one from an earlier place too, where there is no
/// controller between them.
proof fn lemma_first_from_earlier(
    space: ConfigSpace,
    from: int,
    later: int,
    result: Option<XhciController>,
)
    requires
        from <= later,
        is_first_from(space, later, result),
        forall|n: int|
            from <= n < later ==> controller_at(space, #[trigger] place_at(n)) is None,
    ensures
        is_first_from(space, from, result),
{
}

/// A device with one function has no controllers at the others.
proof fn lemma_single_function(space: ConfigSpace, at: Place)
    requires
        at.well_formed(),
        at.function == 0,
        controller_at(space, at) is None,
        space(register_address(at, 0x0c)) & MULTI_FUNCTION == 0,
    ensures
        forall|n: int|
            at.number() <= n < at.number() + 8 ==> controller_at(
                space,
                #[trigger] place_at(n),
            ) is None,
{
    assert forall|n: int| at.number() <= n < at.number() + 8 implies controller_at(
        space,
        #[trigger] place_at(n),
    ) is None by {
        let place = place_at(n);
        assert(place.bus == at.bus && place.device == at.device);
        if place.function == 0 {
            assert(place == at);
        } else {
            assert(Place { function: 0, ..place } == at);
        }
    }
}

proof fn lemma_scan_finds_first(space: ConfigSpace, scan: XhciScan)
    requires
        scan.well_formed(),
        agrees(space, scan),
    ensures
        is_first_from(space, from_number(scan), scan_result(space, scan)),
    decreases scan.accesses_left(),
{
    let reply = match scan.action_spec() {
        ScanAction::Read { address } => space(address),
        _ => 0,
    };
    let next = scan.after(reply);
    law_scan_ends(scan, reply);
    let from = from_number(scan);
    assert(scan_result(space, scan) == scan_result(space, next));
    match scan {
        XhciScan::Enable { at, base, .. } => {
            lemma_place_number(at);
        },
        XhciScan::Header { at } => {
            if reply & MULTI_FUNCTION == 0 {
                lemma_single_function(space, at);
                if next is Finished {
                    assert(at.number() + 8 == 0x1_0000);
                } else {
                    assert(from_number(next) == at.number() + 8);
                    lemma_scan_finds_first(space, next);
                    lemma_first_from_earlier(
                        space,
                        from,
                        from_number(next),
                        scan_result(space, next),
                    );
                }
            } else {
                lemma_place_number(at);
                lemma_scan_finds_first(space, next);
                lemma_first_from_earlier(space, from, from + 1, scan_result(space, next));
            }
        },
        XhciScan::Command { at, .. } => {
            lemma_scan_finds_first(space, next);
        },
        _ => {
            let at = place_at(from);
            lemma_looked_at(scan);
            if next == missed(at) {
                assert(controller_at(space, at) is None);
                if next is Finished {
                    assert(from + 1 == 0x1_0000);
                } else if next is Header {
                    lemma_scan_finds_first(space, next);
                } else {
                    assert(from_number(next) == from + 1);
                    if at.function != 0 && at.function < 7 {
                        assert(has_function(space, next->Identity_at));
                    }
                    lemma_scan_finds_first(space, next);
                    lemma_first_from_earlier(
                        space,
                        from,
                        from + 1,
                        scan_result(space, next),
                    );
                }
            } else {
                lemma_scan_finds_first(space, next);
            }
        },
    }
}

proof fn lemma_looked_at(scan: XhciScan)
    requires
        scan.well_formed(),
    ensures
        match scan {
            XhciScan::Identity { at } => place_at(from_number(scan)) == at,
            XhciScan::Class { at } => place_at(from_number(scan)) == at,
            XhciScan::LowBase { at } => place_at(from_number(scan)) == at,
            XhciScan::HighBase { at, .. } => place_at(from_number(scan)) == at,
            _ => true,
        },
{
    match scan {
        XhciScan::Identity { at } => lemma_place_number(at),
        XhciScan::Class { at } => lemma_place_number(at),
        XhciScan::LowBase { at } => lemma_place_number(at),
        XhciScan::HighBase { at, .. } => lemma_place_number(at),
        _ => {},
    }
}

/// The search finds the first usable controller in the order of bus, device and
/// function, and reports none only where the whole bus has none.
pub proof fn law_scan_finds_first_controller(space: ConfigSpace)
    ensures
        is_first_from(space, 0, scan_result(space, XhciScan::start())),
{
    lemma_scan_finds_first(space, XhciScan::start());
}

/// A register's address is made of the place and the offset: bit 31 is set, the bus counts
/// 65536, the device 2048, the function 256, and the offset as much as it is, down to a
/// multiple of four.
pub proof fn law_register_address(place: Place, offset: u8)
    requires
        place.well_formed(),
    ensures
        place.device < 32 && place.function < 8,
        register_address(place, offset) == 0x8000_0000 + 65536 * place.bus + 2048 * place.device
            + 256 * place.function + (offset - offset % 4),
{
    let (bus, device, function) = (place.bus, place.device, place.function);
    assert(0x8000_0000u32 | ((bus as u32) << 16u32) | ((device as u32) << 11u32) | ((
    function as u32) << 8u32) | (offset as u32 & 0xfc) == 0x8000_0000u32 + 65536u32 * (bus as u32)
        + 2048u32 * (device as u32) + 256u32 * (function as u32) + (offset as u32 - (
    offset as u32) % 4)) by (bit_vector)
        requires
            device < 32,
            function < 8,
    ;
}

/// What makes a usable controller, register by register: the vendor is not all ones, the
/// class is serial bus, USB, xHCI, and the base register is of memory, 32 or 64 bits wide,
/// at an address other than zero. A function other than the first counts only where the
/// first one's header has bit 23 set.
pub proof fn law_usable_controller(space: ConfigSpace, place: Place)
    requires
        place.well_formed(),
    ensures
        ({
            let own = 0x8000_0000 + 65536 * place.bus + 2048 * place.device + 256 * place.function;
            let first = 0x8000_0000 + 65536 * place.bus + 2048 * place.device;
            let low = space((own + 0x10) as u32);
            let high = space((own + 0x14) as u32);
            let there = {
                &&& place.function == 0 || space((first + 0x0c) as u32) as int / 0x80_0000 % 2 == 1
                &&& space(own as u32) % 65536 != 65535
                &&& space((own + 0x08) as u32) / 256 == 0x0c0330
            };
            match controller_at(space, place) {
                Some(base) => {
                    &&& there && base != 0 && base % 16 == 0
                    &&& low % 2 == 0
                    &&& low as int / 2 % 4 == 0 ==> base == low - low % 16
                    &&& low as int / 2 % 4 == 2 ==> base == 4294967296 * high + (low - low % 16)
                    &&& low as int / 2 % 4 == 0 || low as int / 2 % 4 == 2
                },
                None => {
                    ||| !there
                    ||| low % 2 == 1
                    ||| low as int / 2 % 2 == 1
                    ||| low < 16 && (low as int / 2 % 4 == 0 || high == 0)
                },
            }
        }),
{
    law_register_address(place, 0x00);
    law_register_address(place, 0x08);
    law_register_address(place, 0x10);
    law_register_address(place, 0x14);
    law_register_address(Place { function: 0, ..place }, 0x0c);
    let header = space(register_address(Place { function: 0, ..place }, 0x0c));
    assert(header & 0x80_0000 != 0 <==> header / 0x80_0000 % 2 == 1) by (bit_vector);
}

/// The controller that is reported was switched on: its command register got back what it
/// held, with memory decoding and bus mastering set and no other bit changed.
pub proof fn law_controller_is_switched_on(at: Place, base: u64, command: u32)
    requires
        at.well_formed(),
    ensures
        ({
            let action = (XhciScan::Enable { at, base, command }).action_spec();
            &&& action is Write
            &&& action->Write_address == 0x8000_0004 + 65536 * at.bus + 2048 * at.device + 256
                * at.function
            &&& action->value as int / 2 % 4 == 3
            &&& action->value % 2 == command % 2
            &&& action->value / 8 == command / 8
        }),
        (XhciScan::Command { at, base }).after(command) == (XhciScan::Enable { at, base, command }),
{
    law_register_address(at, 0x04);
    assert((command | 6) / 2 % 4 == 3 && (command | 6) % 2 == command % 2 && (command | 6) / 8
        == command / 8) by (bit_vector);
}

/// The order of the search: functions of a device, devices of a bus, buses, each from zero.
pub proof fn law_search_order(a: Place, b: Place)
    requires
        a.well_formed(),
        b.well_formed(),
    ensures
        a.number() < b.number() <==> {
            ||| a.bus < b.bus
            ||| a.bus == b.bus && a.device < b.device
            ||| a.bus == b.bus && a.device == b.device && a.function < b.function
        },
        place_at(a.number()) == a,
        0 <= a.number() < 65536,
{
    lemma_place_number(a);
}

} // verus!
