//! The system-call bridge: which host service a guest request asks for, what
//! the host has to do for it, and what the guest gets back.

use vstd::prelude::*;
use rand::rngs::ThreadRng;
use rand::RngCore;
use crate::errors::SuperMipsError;
use crate::input::{edges, get_keys_pressed, pressed_mask, KeyState};
use crate::packed::{color_of, rect_of, u32_to_color, u32s_to_rect, Color, Rect};
use crate::strings::{get_string_at_address, string_at};
use crate::text::{format_for, format_of, number_text, number_to_string};

verus! {

/// Number of registers of the machine.
pub const REGISTER_COUNT: usize = 32;

/// Register that carries the selector of a request and, afterwards, the
/// value that the service returns.
pub const RETURN_REGISTER: usize = 2;

/// The host services.
#[derive(Debug, Clone, Copy, PartialEq, Eq, Structural)]
pub enum Syscall {
    Exit,
    Present,
    PollAndPace,
    PrintString,
    PrintNumber,
    SetTitle,
    Reseed,
    NextRandom,
    KeysDown,
    KeysUp,
    KeysPressed,
    ClearScreen,
    FillRect,
}

/// Whether a selector is set aside for a service that is not provided yet.
pub open spec fn is_reserved(selector: u32) -> bool {
    ||| selector == 0x08
    ||| selector == 0x0B
    ||| selector == 0x21
    ||| selector == 0x23
    ||| selector == 0x24
    ||| 0x30 <= selector <= 0x33
}

/// The service that a selector names.
pub open spec fn classify(selector: u32) -> Result<Syscall, SuperMipsError> {
    if selector == 0x00 {
        Ok(Syscall::Exit)
    } else if selector == 0x01 {
        Ok(Syscall::Present)
    } else if selector == 0x02 {
        Ok(Syscall::PollAndPace)
    } else if selector == 0x03 {
        Ok(Syscall::PrintString)
    } else if selector == 0x04 {
        Ok(Syscall::PrintNumber)
    } else if selector == 0x05 {
        Ok(Syscall::SetTitle)
    } else if selector == 0x09 {
        Ok(Syscall::Reseed)
    } else if selector == 0x0A {
        Ok(Syscall::NextRandom)
    } else if selector == 0x10 {
        Ok(Syscall::KeysDown)
    } else if selector == 0x11 {
        Ok(Syscall::KeysUp)
    } else if selector == 0x12 {
        Ok(Syscall::KeysPressed)
    } else if selector == 0x20 {
        Ok(Syscall::ClearScreen)
    } else if selector == 0x22 {
        Ok(Syscall::FillRect)
    } else if is_reserved(selector) {
        Err(SuperMipsError::Unimplemented(selector))
    } else {
        Err(SuperMipsError::UnknownSyscall(selector))
    }
}

/// Finds the service that a selector names.
pub fn decode_selector(selector: u32) -> (res: Result<Syscall, SuperMipsError>)
    ensures
        res == classify(selector),
{
    match selector {
        0x00 => Ok(Syscall::Exit),
        0x01 => Ok(Syscall::Present),
        0x02 => Ok(Syscall::PollAndPace),
        0x03 => Ok(Syscall::PrintString),
        0x04 => Ok(Syscall::PrintNumber),
        0x05 => Ok(Syscall::SetTitle),
        0x09 => Ok(Syscall::Reseed),
        0x0A => Ok(Syscall::NextRandom),
        0x10 => Ok(Syscall::KeysDown),
        0x11 => Ok(Syscall::KeysUp),
        0x12 => Ok(Syscall::KeysPressed),
        0x20 => Ok(Syscall::ClearScreen),
        0x22 => Ok(Syscall::FillRect),
        0x08 | 0x0B | 0x21 | 0x23 | 0x24 | 0x30 | 0x31 | 0x32 | 0x33 => Err(
            SuperMipsError::Unimplemented(selector),
        ),
        _ => Err(SuperMipsError::UnknownSyscall(selector)),
    }
}

/// What the host has to do for a request.
#[derive(Debug, PartialEq, Eq)]
pub enum HostAction {
    /// Nothing.
    Nothing,
    /// Post the signal that ends the run.
    Quit,
    /// Flush the presentation surface.
    Present,
    /// Read the keyboard and the clock and hand both to `poll_and_pace`.
    PollAndPace,
    /// Write the text to the text output and flush it.
    WriteText(String),
    /// Give the window this title.
    SetTitle(String),
    /// Clear the presentation surface to the colour.
    Clear(Color),
    /// Fill the rectangle with the colour.
    FillRect(Color, Rect),
}

/// Mathematical model of a `HostAction`.
pub enum HostActionView {
    Nothing,
    Quit,
    Present,
    PollAndPace,
    WriteText(Seq<char>),
    SetTitle(Seq<char>),
    Clear(Color),
    FillRect(Color, Rect),
}

impl View for HostAction {
    type V = HostActionView;

    open spec fn view(&self) -> HostActionView {
        match self {
            HostAction::Nothing => HostActionView::Nothing,
            HostAction::Quit => HostActionView::Quit,
            HostAction::Present => HostActionView::Present,
            HostAction::PollAndPace => HostActionView::PollAndPace,
            HostAction::WriteText(text) => HostActionView::WriteText(text@),
            HostAction::SetTitle(text) => HostActionView::SetTitle(text@),
            HostAction::Clear(color) => HostActionView::Clear(*color),
            HostAction::FillRect(color, rect) => HostActionView::FillRect(*color, *rect),
        }
    }
}

/// What a served request comes to: the registers that the guest goes on
/// with, and the action that is left to the host.
#[derive(Debug, PartialEq, Eq)]
pub struct SyscallResult {
    pub registers: [u32; 32],
    pub action: HostAction,
}

/// Mathematical model of the bridge's state. The random number generator
/// is no part of it.
pub struct BridgeView {
    pub keys: KeyState,
    pub last_frame: u64,
    pub frame_interval: u64,
    pub title: Seq<char>,
    pub quit_pending: bool,
}

/// Mathematical model of a served request: the state of the bridge after
/// it, the registers and the host's action.
pub struct Response {
    pub state: BridgeView,
    pub registers: Seq<u32>,
    pub action: HostActionView,
}

/// What serving `call` comes to, where `regs` are the guest's registers,
/// `data` the stored words of the data segment and `random` the next value
/// of the random stream.
pub open spec fn respond(
    state: BridgeView,
    call: Syscall,
    regs: Seq<u32>,
    data: Seq<u32>,
    random: u32,
) -> Result<Response, SuperMipsError> {
    match call {
        Syscall::Exit => Ok(
            Response {
                state: BridgeView { quit_pending: true, ..state },
                registers: regs,
                action: HostActionView::Quit,
            },
        ),
        Syscall::Present => Ok(Response { state, registers: regs, action: HostActionView::Present }),
        Syscall::PollAndPace => Ok(
            Response { state, registers: regs, action: HostActionView::PollAndPace },
        ),
        Syscall::PrintString => match string_at(data, regs[4]) {
            Ok(text) => Ok(
                Response { state, registers: regs, action: HostActionView::WriteText(text) },
            ),
            Err(e) => Err(e),
        },
        Syscall::PrintNumber => Ok(
            Response {
                state,
                registers: regs,
                action: match format_of(regs[5]) {
                    Some(format) => HostActionView::WriteText(number_text(format, regs[4])),
                    None => HostActionView::Nothing,
                },
            },
        ),
        Syscall::SetTitle => match string_at(data, regs[4]) {
            Ok(text) => Ok(
                Response {
                    state: BridgeView { title: text, ..state },
                    registers: regs,
                    action: HostActionView::SetTitle(text),
                },
            ),
            Err(e) => Err(e),
        },
        Syscall::Reseed => Ok(Response { state, registers: regs, action: HostActionView::Nothing }),
        Syscall::NextRandom => Ok(
            Response {
                state,
                registers: regs.update(RETURN_REGISTER as int, random),
                action: HostActionView::Nothing,
            },
        ),
        Syscall::KeysDown => Ok(
            Response {
                state,
                registers: regs.update(RETURN_REGISTER as int, state.keys.down),
                action: HostActionView::Nothing,
            },
        ),
        Syscall::KeysUp => Ok(
            Response {
                state,
                registers: regs.update(RETURN_REGISTER as int, state.keys.up),
                action: HostActionView::Nothing,
            },
        ),
        Syscall::KeysPressed => Ok(
            Response {
                state,
                registers: regs.update(RETURN_REGISTER as int, state.keys.pressed),
                action: HostActionView::Nothing,
            },
        ),
        Syscall::ClearScreen => Ok(
            Response { state, registers: regs, action: HostActionView::Clear(color_of(regs[4])) },
        ),
        Syscall::FillRect => Ok(
            Response {
                state,
                registers: regs,
                action: HostActionView::FillRect(color_of(regs[4]), rect_of(regs[5], regs[6])),
            },
        ),
    }
}

/// How long the host has to sleep after a poll at time `now` to keep the
/// frame interval: what is left of the interval once the time since the
/// previous poll is taken off, and nothing if that time is longer.
pub open spec fn time_to_sleep(state: BridgeView, now: u64) -> u64 {
    let elapsed = if now >= state.last_frame {
        now - state.last_frame
    } else {
        0
    };
    if state.frame_interval >= elapsed {
        (state.frame_interval - elapsed) as u64
    } else {
        0
    }
}

/// `rand::rngs::ThreadRng`, which the bridge carries without looking
/// inside.
#[verifier::external_type_specification]
#[verifier::external_body]
pub struct ExThreadRng(ThreadRng);

/// `rand::thread_rng`: a handle to the generator of the current thread,
/// which the operating system has seeded. Nothing is claimed of it. The
/// call stops the program if the operating system gives no seed.
#[verifier::external_body]
fn fresh_rng() -> (rng: ThreadRng) {
    rand::thread_rng()
}

/// `RngCore::next_u32` of a `ThreadRng`: the next value of the stream.
/// Nothing is claimed of the value. The generator takes a new seed from the
/// operating system now and then, and stops the program if it gets none.
#[verifier::external_body]
fn next_random(rng: &mut ThreadRng) -> (value: u32) {
    rng.next_u32()
}

/// State that the bridge keeps between requests.
pub struct SyscallBridge {
    keys: KeyState,
    rng: ThreadRng,
    last_frame: u64,
    frame_interval: u64,
    title: String,
    quit_pending: bool,
}

impl View for SyscallBridge {
    type V = BridgeView;

    closed spec fn view(&self) -> BridgeView {
        BridgeView {
            keys: self.keys,
            last_frame: self.last_frame,
            frame_interval: self.frame_interval,
            title: self.title@,
            quit_pending: self.quit_pending,
        }
    }
}

impl SyscallBridge {
    /// A bridge for a window titled `title` that paces frames
    /// `frame_interval` apart, made at time `now`. Times are counted in
    /// nanoseconds.
    pub fn new(title: String, frame_interval: u64, now: u64) -> (bridge: SyscallBridge)
        ensures
            bridge@ == (BridgeView {
                keys: KeyState { pressed: 0, down: 0, up: 0 },
                last_frame: now,
                frame_interval,
                title: title@,
                quit_pending: false,
            }),
    {
        SyscallBridge {
            keys: KeyState::new(),
            rng: fresh_rng(),
            last_frame: now,
            frame_interval,
            title,
            quit_pending: false,
        }
    }

    /// Serves the request that the registers hold: the selector in register
    /// 2, the arguments in registers 4 to 7. A selector that names no
    /// provided service is refused and leaves the bridge as it was. For the
    /// next random number the stream is advanced, and the value is whatever
    /// the stream gives.
    pub fn dispatch(&mut self, regs: [u32; 32], data: &Vec<u32>) -> (res: Result<
        SyscallResult,
        SuperMipsError,
    >)
        ensures
            match classify(regs@[RETURN_REGISTER as int]) {
                Ok(call) => exists|random: u32|
                    served(
                        res,
                        final(self)@,
                        old(self)@,
                        #[trigger] respond(old(self)@, call, regs@, data@, random),
                    ),
                Err(e) => {
                    &&& res == Err::<SyscallResult, SuperMipsError>(e)
                    &&& final(self)@ == old(self)@
                },
            },
    {
        let call = match decode_selector(regs[RETURN_REGISTER]) {
            Ok(call) => call,
            Err(e) => {
                return Err(e);
            },
        };
        let random: u32 = match call {
            Syscall::NextRandom => next_random(&mut self.rng),
            Syscall::Reseed => {
                self.rng = fresh_rng();
                0
            },
            _ => 0,
        };
        self.perform(call, regs, data, random)
    }

    /// Serves `call`, where `random` is the next value of the random
    /// stream.
    pub fn perform(&mut self, call: Syscall, regs: [u32; 32], data: &Vec<u32>, random: u32) -> (res:
        Result<SyscallResult, SuperMipsError>)
        ensures
            served(res, final(self)@, old(self)@, respond(old(self)@, call, regs@, data@, random)),
    {
        let mut registers = regs;
        let action = match call {
            Syscall::Exit => {
                self.quit_pending = true;
                HostAction::Quit
            },
            Syscall::Present => HostAction::Present,
            Syscall::PollAndPace => HostAction::PollAndPace,
            Syscall::PrintString => {
                match get_string_at_address(data, regs[4]) {
                    Ok(text) => HostAction::WriteText(text),
                    Err(e) => {
                        return Err(e);
                    },
                }
            },
            Syscall::PrintNumber => {
                match format_for(regs[5]) {
                    Some(format) => HostAction::WriteText(number_to_string(format, regs[4])),
                    None => HostAction::Nothing,
                }
            },
            Syscall::SetTitle => {
                match get_string_at_address(data, regs[4]) {
                    Ok(text) => {
                        self.title = text.clone();
                        HostAction::SetTitle(text)
                    },
                    Err(e) => {
                        return Err(e);
                    },
                }
            },
            Syscall::Reseed => HostAction::Nothing,
            Syscall::NextRandom => {
                registers[RETURN_REGISTER] = random;
                HostAction::Nothing
            },
            Syscall::KeysDown => {
                registers[RETURN_REGISTER] = self.keys.down;
                HostAction::Nothing
            },
            Syscall::KeysUp => {
                registers[RETURN_REGISTER] = self.keys.up;
                HostAction::Nothing
            },
            Syscall::KeysPressed => {
                registers[RETURN_REGISTER] = self.keys.pressed;
                HostAction::Nothing
            },
            Syscall::ClearScreen => HostAction::Clear(u32_to_color(regs[4])),
            Syscall::FillRect => HostAction::FillRect(
                u32_to_color(regs[4]),
                u32s_to_rect(regs[5], regs[6]),
            ),
        };
        Ok(SyscallResult { registers, action })
    }

    /// Takes in what the host found when it polled: `raw`, one flag per key
    /// in the order of `Key`, and the time `now`. Recomputes the key state
    /// and says how long the host has to sleep to keep the frame interval.
    pub fn poll_and_pace(&mut self, raw: &[bool; 14], now: u64) -> (sleep: u64)
        ensures
            sleep == time_to_sleep(old(self)@, now),
            final(self)@ == (BridgeView {
                keys: edges(old(self)@.keys.pressed, pressed_mask(raw@)),
                last_frame: now,
                ..old(self)@
            }),
    {
        let current = get_keys_pressed(raw);
        self.keys.update(current);
        let elapsed = if now >= self.last_frame {
            now - self.last_frame
        } else {
            0
        };
        self.last_frame = now;
        if self.frame_interval >= elapsed {
            self.frame_interval - elapsed
        } else {
            0
        }
    }

    /// The time between two frames, in nanoseconds.
    pub fn frame_interval(&self) -> (interval: u64)
        ensures
            interval == self@.frame_interval,
    {
        self.frame_interval
    }

    /// The time of the latest poll, in nanoseconds.
    pub fn last_frame(&self) -> (time: u64)
        ensures
            time == self@.last_frame,
    {
        self.last_frame
    }

    /// The key state as of the latest poll.
    pub fn keys(&self) -> (keys: KeyState)
        ensures
            keys == self@.keys,
    {
        self.keys
    }

    /// Whether the guest has asked to end the run.
    pub fn quit_pending(&self) -> (pending: bool)
        ensures
            pending == self@.quit_pending,
    {
        self.quit_pending
    }

    /// The title that the window has at present.
    pub fn title(&self) -> (title: &String)
        ensures
            title@ == self@.title,
    {
        &self.title
    }
}

/// Whether the outcome of a request is the one that `expected` describes.
/// A refused request leaves the bridge as it was.
pub open spec fn served(
    res: Result<SyscallResult, SuperMipsError>,
    after: BridgeView,
    before: BridgeView,
    expected: Result<Response, SuperMipsError>,
) -> bool {
    match expected {
        Ok(response) => {
            &&& res matches Ok(result)
            &&& result.registers@ == response.registers
            &&& result.action@ == response.action
            &&& after == response.state
        },
        Err(e) => res == Err::<SyscallResult, SuperMipsError>(e) && after == before,
    }
}

/// Every selector is served, reserved or unknown, and only one of the
/// three: a selector that names no service is refused as unimplemented if
/// it is reserved and as unknown otherwise, never served.
pub proof fn lemma_selector_classes(selector: u32)
    ensures
        classify(selector) is Ok || classify(selector) == Err::<Syscall, SuperMipsError>(
            SuperMipsError::Unimplemented(selector),
        ) || classify(selector) == Err::<Syscall, SuperMipsError>(
            SuperMipsError::UnknownSyscall(selector),
        ),
        classify(selector) == Err::<Syscall, SuperMipsError>(
            SuperMipsError::Unimplemented(selector),
        ) <==> is_reserved(selector),
        selector > 0x33 ==> classify(selector) == Err::<Syscall, SuperMipsError>(
            SuperMipsError::UnknownSyscall(selector),
        ),
{
}

/// A served request changes no register but the return register, and
/// nothing of the bridge but the quit flag, which only `Exit` sets, and the
/// title, which only `SetTitle` sets. Only requests that take a string can
/// fail.
pub proof fn lemma_respond_frame(
    state: BridgeView,
    call: Syscall,
    regs: Seq<u32>,
    data: Seq<u32>,
    random: u32,
)
    requires
        regs.len() == REGISTER_COUNT,
    ensures
        respond(state, call, regs, data, random) matches Ok(response) ==> {
            &&& response.registers.len() == regs.len()
            &&& forall|i: int|
                0 <= i < regs.len() && i != RETURN_REGISTER ==> response.registers[i] == regs[i]
            &&& response.state.keys == state.keys
            &&& response.state.last_frame == state.last_frame
            &&& response.state.frame_interval == state.frame_interval
            &&& call != Syscall::Exit ==> response.state.quit_pending == state.quit_pending
            &&& call == Syscall::Exit ==> response.state.quit_pending
            &&& call != Syscall::SetTitle ==> response.state.title == state.title
        },
        respond(state, call, regs, data, random) is Err ==> call == Syscall::PrintString || call
            == Syscall::SetTitle,
{
}

} // verus!
