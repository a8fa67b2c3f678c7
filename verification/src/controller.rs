//! The keyboard controller: how it is set up, step by step, and how it resets the machine.
//!
//! The controller is set up to translate the keyboard's own scancodes into set 1, whatever
//! the firmware left behind. A machine without a responsive controller is found out after
//! a bounded number of looks at its status.

use vstd::prelude::*;

use crate::ports::{Poll, PollStep, POLL_LIMIT};

verus! {

/// The port that carries data to and from the controller.
pub const PS2_DATA: u16 = 0x60;

/// The port that carries the controller's status and its commands.
pub const PS2_STATUS_COMMAND: u16 = 0x64;

/// The status bit that says a byte waits to be read.
pub const OUTPUT_FULL: u8 = 0x01;

/// The status bit that says the controller has not yet taken the last byte.
pub const INPUT_FULL: u8 = 0x02;

/// How many stale bytes are thrown away at most.
pub const DRAIN_LIMIT: u32 = 32;

pub const DISABLE_FIRST_PORT: u8 = 0xad;

pub const READ_CONFIGURATION: u8 = 0x20;

pub const WRITE_CONFIGURATION: u8 = 0x60;

pub const ENABLE_FIRST_PORT: u8 = 0xae;

pub const PULSE_RESET: u8 = 0xfe;

/// What to do next with the controller. The value read, or anything after a write, is
/// handed to the next step.
#[derive(Debug, Clone, Copy, PartialEq, Eq, Structural)]
pub enum ControllerAction {
    ReadStatus,
    ReadData,
    WriteCommand(u8),
    WriteData(u8),
    Finished(bool),
}

/// Where the setup stands. The waits know how many looks they have left.
#[derive(Debug, Clone, Copy, PartialEq, Eq, Structural)]
pub enum ControllerState {
    AwaitDisable { looks: u32 },
    Disable,
    DrainStatus { left: u32 },
    DrainData { left: u32 },
    AwaitRequest { looks: u32 },
    Request,
    AwaitReply { looks: u32 },
    Reply,
    AwaitStore { looks: u32, configured: u8 },
    Store { configured: u8 },
    AwaitConfigured { looks: u32, configured: u8 },
    WriteConfigured { configured: u8 },
    AwaitEnable { looks: u32, configured: u8 },
    Enable { configured: u8 },
    Finished { responsive: bool, configured: u8 },
}

/// The configuration with the first port's interrupt and the translation switched on and
/// the first port's clock not held.
pub open spec fn configured_byte(found: u8) -> u8 {
    (found | 0x01 | 0x40) & !0x10u8
}

impl ControllerState {
    /// Where the setup starts.
    pub open spec fn start() -> ControllerState {
        ControllerState::AwaitDisable { looks: POLL_LIMIT }
    }

    /// What the setup does in this state.
    pub open spec fn action_spec(self) -> ControllerAction {
        match self {
            ControllerState::AwaitDisable { .. } => ControllerAction::ReadStatus,
            ControllerState::Disable => ControllerAction::WriteCommand(DISABLE_FIRST_PORT),
            ControllerState::DrainStatus { .. } => ControllerAction::ReadStatus,
            ControllerState::DrainData { .. } => ControllerAction::ReadData,
            ControllerState::AwaitRequest { .. } => ControllerAction::ReadStatus,
            ControllerState::Request => ControllerAction::WriteCommand(READ_CONFIGURATION),
            ControllerState::AwaitReply { .. } => ControllerAction::ReadStatus,
            ControllerState::Reply => ControllerAction::ReadData,
            ControllerState::AwaitStore { .. } => ControllerAction::ReadStatus,
            ControllerState::Store { .. } => ControllerAction::WriteCommand(WRITE_CONFIGURATION),
            ControllerState::AwaitConfigured { .. } => ControllerAction::ReadStatus,
            ControllerState::WriteConfigured { configured } => ControllerAction::WriteData(
                configured,
            ),
            ControllerState::AwaitEnable { .. } => ControllerAction::ReadStatus,
            ControllerState::Enable { .. } => ControllerAction::WriteCommand(ENABLE_FIRST_PORT),
            ControllerState::Finished { responsive, .. } => ControllerAction::Finished(responsive),
        }
    }

    /// A wait is over when the device is ready, fails with its last look, and else goes on.
    pub open spec fn waited(ready: bool, looks: u32, next: Self, again: Self) -> Self {
        if ready {
            next
        } else if looks <= 1 {
            ControllerState::Finished { responsive: false, configured: 0 }
        } else {
            again
        }
    }

    /// Where the setup goes after its action, given what was read.
    pub open spec fn after(self, reply: u8) -> ControllerState {
        let accepts = reply & INPUT_FULL == 0;
        match self {
            ControllerState::AwaitDisable { looks } => Self::waited(
                accepts,
                looks,
                ControllerState::Disable,
                ControllerState::AwaitDisable { looks: (looks - 1) as u32 },
            ),
            ControllerState::Disable => ControllerState::DrainStatus { left: DRAIN_LIMIT },
            ControllerState::DrainStatus { left } => if reply & OUTPUT_FULL == 0 {
                ControllerState::AwaitRequest { looks: POLL_LIMIT }
            } else {
                ControllerState::DrainData { left }
            },
            ControllerState::DrainData { left } => if left <= 1 {
                ControllerState::AwaitRequest { looks: POLL_LIMIT }
            } else {
                ControllerState::DrainStatus { left: (left - 1) as u32 }
            },
            ControllerState::AwaitRequest { looks } => Self::waited(
                accepts,
                looks,
                ControllerState::Request,
                ControllerState::AwaitRequest { looks: (looks - 1) as u32 },
            ),
            ControllerState::Request => ControllerState::AwaitReply { looks: POLL_LIMIT },
            ControllerState::AwaitReply { looks } => Self::waited(
                reply & OUTPUT_FULL != 0,
                looks,
                ControllerState::Reply,
                ControllerState::AwaitReply { looks: (looks - 1) as u32 },
            ),
            ControllerState::Reply => ControllerState::AwaitStore {
                looks: POLL_LIMIT,
                configured: configured_byte(reply),
            },
            ControllerState::AwaitStore { looks, configured } => Self::waited(
                accepts,
                looks,
                ControllerState::Store { configured },
                ControllerState::AwaitStore { looks: (looks - 1) as u32, configured },
            ),
            ControllerState::Store { configured } => ControllerState::AwaitConfigured {
                looks: POLL_LIMIT,
                configured,
            },
            ControllerState::AwaitConfigured { looks, configured } => Self::waited(
                accepts,
                looks,
                ControllerState::WriteConfigured { configured },
                ControllerState::AwaitConfigured { looks: (looks - 1) as u32, configured },
            ),
            ControllerState::WriteConfigured { configured } => ControllerState::AwaitEnable {
                looks: POLL_LIMIT,
                configured,
            },
            ControllerState::AwaitEnable { looks, configured } => Self::waited(
                accepts,
                looks,
                ControllerState::Enable { configured },
                ControllerState::AwaitEnable { looks: (looks - 1) as u32, configured },
            ),
            ControllerState::Enable { configured } => ControllerState::Finished {
                responsive: true,
                configured,
            },
            ControllerState::Finished { .. } => self,
        }
    }

    /// Starts the setup.
    pub fn new() -> (state: Self)
        ensures
            state == Self::start(),
    {
        ControllerState::AwaitDisable { looks: POLL_LIMIT }
    }

    /// What to do in this state.
    pub fn action(&self) -> (action: ControllerAction)
        ensures
            action == self.action_spec(),
    {
        match *self {
            ControllerState::AwaitDisable { .. } => ControllerAction::ReadStatus,
            ControllerState::Disable => ControllerAction::WriteCommand(DISABLE_FIRST_PORT),
            ControllerState::DrainStatus { .. } => ControllerAction::ReadStatus,
            ControllerState::DrainData { .. } => ControllerAction::ReadData,
            ControllerState::AwaitRequest { .. } => ControllerAction::ReadStatus,
            ControllerState::Request => ControllerAction::WriteCommand(READ_CONFIGURATION),
            ControllerState::AwaitReply { .. } => ControllerAction::ReadStatus,
            ControllerState::Reply => ControllerAction::ReadData,
            ControllerState::AwaitStore { .. } => ControllerAction::ReadStatus,
            ControllerState::Store { .. } => ControllerAction::WriteCommand(WRITE_CONFIGURATION),
            ControllerState::AwaitConfigured { .. } => ControllerAction::ReadStatus,
            ControllerState::WriteConfigured { configured } => ControllerAction::WriteData(
                configured,
            ),
            ControllerState::AwaitEnable { .. } => ControllerAction::ReadStatus,
            ControllerState::Enable { .. } => ControllerAction::WriteCommand(ENABLE_FIRST_PORT),
            ControllerState::Finished { responsive, .. } => ControllerAction::Finished(responsive),
        }
    }
}

/// Ends, fails or goes on with a wait.
fn wait(ready: bool, looks: u32, next: ControllerState, again: ControllerState) -> (state:
    ControllerState)
    ensures
        state == ControllerState::waited(ready, looks, next, again),
{
    if ready {
        next
    } else if looks <= 1 {
        ControllerState::Finished { responsive: false, configured: 0 }
    } else {
        again
    }
}

/// Takes what the last action read and gives the next action of the setup.
pub fn initialize_controller(state: &mut ControllerState, reply: u8) -> (action: ControllerAction)
    ensures
        *final(state) == old(state).after(reply),
        action == final(state).action_spec(),
{
    let accepts: bool = reply & INPUT_FULL == 0;
    let offers: bool = reply & OUTPUT_FULL != 0;
    let next: ControllerState = match *state {
        ControllerState::AwaitDisable { looks } => wait(
            accepts,
            looks,
            ControllerState::Disable,
            ControllerState::AwaitDisable { looks: looks.saturating_sub(1) },
        ),
        ControllerState::Disable => ControllerState::DrainStatus { left: DRAIN_LIMIT },
        ControllerState::DrainStatus { left } => if !offers {
            ControllerState::AwaitRequest { looks: POLL_LIMIT }
        } else {
            ControllerState::DrainData { left }
        },
        ControllerState::DrainData { left } => if left <= 1 {
            ControllerState::AwaitRequest { looks: POLL_LIMIT }
        } else {
            ControllerState::DrainStatus { left: left - 1 }
        },
        ControllerState::AwaitRequest { looks } => wait(
            accepts,
            looks,
            ControllerState::Request,
            ControllerState::AwaitRequest { looks: looks.saturating_sub(1) },
        ),
        ControllerState::Request => ControllerState::AwaitReply { looks: POLL_LIMIT },
        ControllerState::AwaitReply { looks } => wait(
            offers,
            looks,
            ControllerState::Reply,
            ControllerState::AwaitReply { looks: looks.saturating_sub(1) },
        ),
        ControllerState::Reply => ControllerState::AwaitStore {
            looks: POLL_LIMIT,
            configured: (reply | 0x01 | 0x40) & !0x10u8,
        },
        ControllerState::AwaitStore { looks, configured } => wait(
            accepts,
            looks,
            ControllerState::Store { configured },
            ControllerState::AwaitStore { looks: looks.saturating_sub(1), configured },
        ),
        ControllerState::Store { configured } => ControllerState::AwaitConfigured {
            looks: POLL_LIMIT,
            configured,
        },
        ControllerState::AwaitConfigured { looks, configured } => wait(
            accepts,
            looks,
            ControllerState::WriteConfigured { configured },
            ControllerState::AwaitConfigured { looks: looks.saturating_sub(1), configured },
        ),
        ControllerState::WriteConfigured { configured } => ControllerState::AwaitEnable {
            looks: POLL_LIMIT,
            configured,
        },
        ControllerState::AwaitEnable { looks, configured } => wait(
            accepts,
            looks,
            ControllerState::Enable { configured },
            ControllerState::AwaitEnable { looks: looks.saturating_sub(1), configured },
        ),
        ControllerState::Enable { configured } => ControllerState::Finished {
            responsive: true,
            configured,
        },
        ControllerState::Finished { responsive, configured } => ControllerState::Finished {
            responsive,
            configured,
        },
    };
    *state = next;
    next.action()
}

/// What to do to reset the machine through the controller.
#[derive(Debug, Clone, Copy, PartialEq, Eq, Structural)]
pub enum ResetAction {
    WriteCommand(u8),
    ReadStatus,
    GiveUp,
}

/// Decides after a look at the status: pulse the reset line once the controller takes a
/// command, look again, or give up after the last look.
pub fn reset_machine(poll: &mut Poll, status: u8) -> (action: ResetAction)
    ensures
        final(poll).looks_left() == if old(poll).looks_left() == 0 {
            0
        } else {
            old(poll).looks_left() - 1
        },
        action == if status & INPUT_FULL == 0 {
            ResetAction::WriteCommand(PULSE_RESET)
        } else if old(poll).looks_left() > 1 {
            ResetAction::ReadStatus
        } else {
            ResetAction::GiveUp
        },
        action is WriteCommand <==> status as int / 2 % 2 == 0,
        action matches ResetAction::WriteCommand(command) ==> command == 0xfe,
        action is GiveUp ==> old(poll).looks_left() <= 1,
{
    assert(status & 2 == 0 <==> status / 2 % 2 == 0) by (bit_vector);
    match poll.look(status & INPUT_FULL == 0) {
        PollStep::Ready => ResetAction::WriteCommand(PULSE_RESET),
        PollStep::Again => ResetAction::ReadStatus,
        PollStep::TimedOut => ResetAction::GiveUp,
    }
}

/// An upper bound on the steps that the setup still takes.
pub open spec fn steps_left(state: ControllerState) -> nat {
    let wait = POLL_LIMIT as nat + 1;
    match state {
        ControllerState::Finished { .. } => 0,
        ControllerState::Enable { .. } => 1,
        ControllerState::AwaitEnable { looks, .. } => 2 + looks as nat,
        ControllerState::WriteConfigured { .. } => 2 + wait,
        ControllerState::AwaitConfigured { looks, .. } => 3 + wait + looks as nat,
        ControllerState::Store { .. } => 3 + 2 * wait,
        ControllerState::AwaitStore { looks, .. } => 4 + 2 * wait + looks as nat,
        ControllerState::Reply => 4 + 3 * wait,
        ControllerState::AwaitReply { looks } => 5 + 3 * wait + looks as nat,
        ControllerState::Request => 5 + 4 * wait,
        ControllerState::AwaitRequest { looks } => 6 + 4 * wait + looks as nat,
        ControllerState::DrainData { left } => 6 + 5 * wait + 2 * left as nat,
        ControllerState::DrainStatus { left } => 7 + 5 * wait + 2 * left as nat,
        ControllerState::Disable => 8 + 5 * wait + 2 * DRAIN_LIMIT as nat,
        ControllerState::AwaitDisable { looks } => 9 + 5 * wait + 2 * DRAIN_LIMIT as nat
            + looks as nat,
    }
}

/// Every step brings the setup nearer to its end: no controller, absent or broken, keeps
/// it going forever.
pub proof fn law_setup_ends(state: ControllerState, reply: u8)
    requires
        !(state.action_spec() is Finished),
    ensures
        steps_left(state.after(reply)) < steps_left(state),
{
}

/// What has been written to the controller on the way to a state.
pub open spec fn written(state: ControllerState) -> Seq<ControllerAction> {
    let disable = ControllerAction::WriteCommand(DISABLE_FIRST_PORT);
    let request = ControllerAction::WriteCommand(READ_CONFIGURATION);
    let store = ControllerAction::WriteCommand(WRITE_CONFIGURATION);
    let enable = ControllerAction::WriteCommand(ENABLE_FIRST_PORT);
    match state {
        ControllerState::AwaitDisable { .. } => Seq::empty(),
        ControllerState::Disable => Seq::empty(),
        ControllerState::DrainStatus { .. } => seq![disable],
        ControllerState::DrainData { .. } => seq![disable],
        ControllerState::AwaitRequest { .. } => seq![disable],
        ControllerState::Request => seq![disable],
        ControllerState::AwaitReply { .. } => seq![disable, request],
        ControllerState::Reply => seq![disable, request],
        ControllerState::AwaitStore { .. } => seq![disable, request],
        ControllerState::Store { .. } => seq![disable, request],
        ControllerState::AwaitConfigured { .. } => seq![disable, request, store],
        ControllerState::WriteConfigured { .. } => seq![disable, request, store],
        ControllerState::AwaitEnable { configured, .. } => seq![
            disable,
            request,
            store,
            ControllerAction::WriteData(configured),
        ],
        ControllerState::Enable { configured } => seq![
            disable,
            request,
            store,
            ControllerAction::WriteData(configured),
        ],
        ControllerState::Finished { configured, .. } => seq![
            disable,
            request,
            store,
            ControllerAction::WriteData(configured),
            enable,
        ],
    }
}

/// A setup writes in one order only: a write adds itself to what was written before, any
/// other step that does not give up adds nothing. So a setup that ends well has disabled
/// the port, asked for the configuration, stored the new one and enabled the port again.
pub proof fn law_setup_writes_in_order(state: ControllerState, reply: u8)
    requires
        !(state.action_spec() is Finished),
        state.after(reply) matches ControllerState::Finished { responsive, .. } ==> responsive,
    ensures
        written(state.after(reply)) == match state.action_spec() {
            ControllerAction::WriteCommand(command) => written(state).push(
                ControllerAction::WriteCommand(command),
            ),
            ControllerAction::WriteData(data) => written(state).push(
                ControllerAction::WriteData(data),
            ),
            _ => written(state),
        },
{
    assert(written(state.after(reply)) =~= match state.action_spec() {
        ControllerAction::WriteCommand(command) => written(state).push(
            ControllerAction::WriteCommand(command),
        ),
        ControllerAction::WriteData(data) => written(state).push(
            ControllerAction::WriteData(data),
        ),
        _ => written(state),
    });
}

/// What a list of replies does.
pub open spec fn after_replies(state: ControllerState, replies: Seq<u8>) -> ControllerState
    decreases replies.len(),
{
    if replies.len() == 0 {
        state
    } else {
        after_replies(state.after(replies[0]), replies.skip(1))
    }
}

/// A controller that never takes a byte, as one that is not there, is given up after the
/// bounded number of looks, with nothing written to it.
pub proof fn law_unresponsive_controller_is_given_up(looks: u32, replies: Seq<u8>)
    requires
        1 <= looks == replies.len(),
        forall|i: int| 0 <= i < replies.len() ==> (#[trigger] replies[i]) & INPUT_FULL != 0,
    ensures
        after_replies(ControllerState::AwaitDisable { looks }, replies) == (
        ControllerState::Finished { responsive: false, configured: 0 }),
    decreases looks,
{
    let state = ControllerState::AwaitDisable { looks };
    assert(replies[0] & INPUT_FULL != 0);
    if looks > 1 {
        law_unresponsive_controller_is_given_up((looks - 1) as u32, replies.skip(1));
    } else {
        assert(replies.skip(1).len() == 0);
        assert(after_replies(state.after(replies[0]), replies.skip(1)) == state.after(replies[0]));
    }
}

/// The stored configuration has the keyboard interrupt and the translation on, the
/// keyboard clock running, and every other bit as it was found.
pub proof fn law_configuration_keeps_other_bits(found: u8)
    ensures
        configured_byte(found) & 0x01 != 0,
        configured_byte(found) & 0x40 != 0,
        configured_byte(found) & 0x10 == 0,
        configured_byte(found) & 0xae == found & 0xae,
{
    assert((found | 0x01 | 0x40) & !0x10u8 & 0x01 != 0 && (found | 0x01 | 0x40) & !0x10u8 & 0x40
        != 0 && (found | 0x01 | 0x40) & !0x10u8 & 0x10 == 0 && (found | 0x01 | 0x40) & !0x10u8
        & 0xae == found & 0xae) by (bit_vector);
}

/// What a setup that ends well has written: disable the port, ask for the configuration,
/// announce and store the new one, enable the port.
pub proof fn law_setup_commands(configured: u8, responsive: bool)
    ensures
        written(ControllerState::Finished { responsive, configured }) == seq![
            ControllerAction::WriteCommand(0xad),
            ControllerAction::WriteCommand(0x20),
            ControllerAction::WriteCommand(0x60),
            ControllerAction::WriteData(configured),
            ControllerAction::WriteCommand(0xae),
        ],
        written(ControllerState::start()).len() == 0,
        ControllerState::start().action_spec() is ReadStatus,
{
}

/// The controller gets a byte only after its status said that it takes one, and its
/// configuration is read only after its status said that it has one.
pub proof fn law_setup_waits_for_controller(state: ControllerState, reply: u8)
    requires
        !(state.action_spec() is Finished),
    ensures
        ({
            let next = state.after(reply).action_spec();
            &&& next is WriteCommand || next is WriteData ==> state.action_spec() is ReadStatus
                && reply as int / 2 % 2 == 0
            &&& next is ReadData ==> state.action_spec() is ReadStatus && reply % 2 == 1
        }),
{
    assert((reply & 2 == 0 <==> reply / 2 % 2 == 0) && (reply & 1 == 0 <==> reply % 2 == 0)) by (
        bit_vector);
}

/// A wait ends at once when the controller is ready, goes on with one look less when it is
/// not, and with the last look gives the controller up.
pub proof fn law_waits_count_down(state: ControllerState, reply: u8, looks: u32)
    requires
        looks > 0,
        state == (ControllerState::AwaitDisable { looks }) || state == (
        ControllerState::AwaitRequest { looks }),
    ensures
        ({
            let next = state.after(reply);
            if reply as int / 2 % 2 == 0 {
                next == if state is AwaitDisable {
                    ControllerState::Disable
                } else {
                    ControllerState::Request
                }
            } else if looks == 1 {
                next == (ControllerState::Finished { responsive: false, configured: 0 })
            } else {
                next == if state is AwaitDisable {
                    ControllerState::AwaitDisable { looks: (looks - 1) as u32 }
                } else {
                    ControllerState::AwaitRequest { looks: (looks - 1) as u32 }
                }
            }
        }),
{
    assert(reply & 2 == 0 <==> reply / 2 % 2 == 0) by (bit_vector);
}

/// The stored configuration is made of the one that was read, and is written back as it
/// was made: every wait keeps it.
pub proof fn law_configuration_is_carried(
    found: u8,
    looks: u32,
    configured: u8,
    reply: u8,
)
    requires
        looks > 1,
    ensures
        ControllerState::Reply.after(found) == (ControllerState::AwaitStore {
            looks: 100_000,
            configured: configured_byte(found),
        }),
        ({
            let store = (ControllerState::AwaitStore { looks, configured }).after(reply);
            let write = (ControllerState::AwaitConfigured { looks, configured }).after(reply);
            let enable = (ControllerState::AwaitEnable { looks, configured }).after(reply);
            let fewer = (looks - 1) as u32;
            if reply as int / 2 % 2 == 0 {
                &&& store == (ControllerState::Store { configured })
                &&& write == (ControllerState::WriteConfigured { configured })
                &&& enable == (ControllerState::Enable { configured })
            } else {
                &&& store == (ControllerState::AwaitStore { looks: fewer, configured })
                &&& write == (ControllerState::AwaitConfigured { looks: fewer, configured })
                &&& enable == (ControllerState::AwaitEnable { looks: fewer, configured })
            }
        }),
        (ControllerState::WriteConfigured { configured }).action_spec()
            == ControllerAction::WriteData(configured),
        (ControllerState::Enable { configured }).after(reply) == (ControllerState::Finished {
            responsive: true,
            configured,
        }),
{
    assert(reply & 2 == 0 <==> reply / 2 % 2 == 0) by (bit_vector);
}

/// A setup is given up only in a wait, with its last look, and never once the port is
/// being enabled.
pub proof fn law_setup_is_given_up_in_waits_only(state: ControllerState, reply: u8)
    requires
        !(state.action_spec() is Finished),
        state.after(reply).action_spec() == ControllerAction::Finished(false),
    ensures
        state.action_spec() is ReadStatus,
        match state {
            ControllerState::AwaitDisable { looks } => looks <= 1 && reply as int / 2 % 2 == 1,
            ControllerState::AwaitRequest { looks } => looks <= 1 && reply as int / 2 % 2 == 1,
            ControllerState::AwaitReply { looks } => looks <= 1 && reply % 2 == 0,
            ControllerState::AwaitStore { looks, .. } => looks <= 1 && reply as int / 2 % 2 == 1,
            ControllerState::AwaitConfigured { looks, .. } => looks <= 1 && reply as int / 2 % 2
                == 1,
            ControllerState::AwaitEnable { looks, .. } => looks <= 1 && reply as int / 2 % 2 == 1,
            _ => false,
        },
{
    assert((reply & 2 == 0 <==> reply / 2 % 2 == 0) && (reply & 1 == 0 <==> reply % 2 == 0)) by (
        bit_vector);
}

/// Every wait starts with a hundred thousand looks, and at most thirty-two stale bytes are
/// thrown away before the configuration is asked for.
pub proof fn law_limits_of_setup(reply: u8, left: u32)
    ensures
        ControllerState::start() == (ControllerState::AwaitDisable { looks: 100_000 }),
        ControllerState::Disable.after(reply) == (ControllerState::DrainStatus { left: 32 }),
        reply % 2 == 0 ==> (ControllerState::DrainStatus { left }).after(reply) == (
        ControllerState::AwaitRequest { looks: 100_000 }),
        reply % 2 == 1 ==> (ControllerState::DrainStatus { left }).after(reply) == (
        ControllerState::DrainData { left }),
        left > 1 ==> (ControllerState::DrainData { left }).after(reply) == (
        ControllerState::DrainStatus { left: (left - 1) as u32 }),
        left <= 1 ==> (ControllerState::DrainData { left }).after(reply) == (
        ControllerState::AwaitRequest { looks: 100_000 }),
        ControllerState::Request.after(reply) == (ControllerState::AwaitReply { looks: 100_000 }),
{
    assert(reply & 1 == 0 <==> reply % 2 == 0) by (bit_vector);
}

} // verus!
