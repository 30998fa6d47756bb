use supermips::bridge::{
    decode_selector, HostAction, Syscall, SyscallBridge, SyscallResult, REGISTER_COUNT,
    RETURN_REGISTER,
};
use supermips::errors::SuperMipsError;
use supermips::input::KeyState;
use supermips::packed::{Color, Rect};
use supermips::strings::DATA_BASE;

const FRAME: u64 = 33_333_333;

fn bridge() -> SyscallBridge {
    SyscallBridge::new("SuperMIPS".to_string(), FRAME, 1_000)
}

fn registers(selector: u32, arguments: [u32; 4]) -> [u32; 32] {
    let mut regs = [0u32; 32];
    for (i, reg) in regs.iter_mut().enumerate() {
        *reg = 0x1000 + i as u32;
    }
    regs[2] = selector;
    regs[4..8].copy_from_slice(&arguments);
    regs
}

fn greeting() -> Vec<u32> {
    vec![0x6e75_6f42, 0x5320_7963, 0x7261_7571, 0x0000_2165]
}

#[test]
fn register_conventions() {
    assert_eq!(REGISTER_COUNT, 32);
    assert_eq!(RETURN_REGISTER, 2);
}

#[test]
fn new_bridge_is_idle() {
    let bridge = bridge();
    assert_eq!(bridge.keys(), KeyState { pressed: 0, down: 0, up: 0 });
    assert!(!bridge.quit_pending());
    assert_eq!(bridge.title(), "SuperMIPS");
}

#[test]
fn selectors_name_their_services() {
    let table = [
        (0x00, Syscall::Exit),
        (0x01, Syscall::Present),
        (0x02, Syscall::PollAndPace),
        (0x03, Syscall::PrintString),
        (0x04, Syscall::PrintNumber),
        (0x05, Syscall::SetTitle),
        (0x09, Syscall::Reseed),
        (0x0A, Syscall::NextRandom),
        (0x10, Syscall::KeysDown),
        (0x11, Syscall::KeysUp),
        (0x12, Syscall::KeysPressed),
        (0x20, Syscall::ClearScreen),
        (0x22, Syscall::FillRect),
    ];
    for (selector, call) in table {
        assert_eq!(decode_selector(selector), Ok(call));
    }
}

#[test]
fn reserved_selectors_are_unimplemented() {
    for selector in [0x08u32, 0x0B, 0x21, 0x23, 0x24, 0x30, 0x31, 0x32, 0x33] {
        assert_eq!(decode_selector(selector), Err(SuperMipsError::Unimplemented(selector)));
        let mut bridge = bridge();
        let result = bridge.dispatch(registers(selector, [0; 4]), &greeting());
        assert_eq!(result, Err(SuperMipsError::Unimplemented(selector)));
        assert!(!bridge.quit_pending());
    }
}

#[test]
fn unknown_selectors_are_refused() {
    let served = [0x00u32, 0x01, 0x02, 0x03, 0x04, 0x05, 0x09, 0x0A, 0x10, 0x11, 0x12, 0x20, 0x22];
    let reserved = [0x08u32, 0x0B, 0x21, 0x23, 0x24, 0x30, 0x31, 0x32, 0x33];
    let mut bridge = bridge();
    for selector in (0..=0x200u32).chain([0xFFFF, 0x1_0000, 0x8000_0000, u32::MAX]) {
        if served.contains(&selector) || reserved.contains(&selector) {
            continue;
        }
        assert_eq!(decode_selector(selector), Err(SuperMipsError::UnknownSyscall(selector)));
        let result = bridge.dispatch(registers(selector, [0; 4]), &greeting());
        assert_eq!(result, Err(SuperMipsError::UnknownSyscall(selector)));
    }
    assert_eq!(
        bridge.dispatch(registers(0xFF, [0; 4]), &greeting()),
        Err(SuperMipsError::UnknownSyscall(0xFF))
    );
    assert_eq!(bridge.keys(), KeyState { pressed: 0, down: 0, up: 0 });
    assert!(!bridge.quit_pending());
    assert_eq!(bridge.title(), "SuperMIPS");
}

#[test]
fn exit_asks_the_host_to_quit() {
    let mut bridge = bridge();
    let regs = registers(0x00, [0; 4]);
    let result = bridge.dispatch(regs, &greeting());
    assert_eq!(result, Ok(SyscallResult { registers: regs, action: HostAction::Quit }));
    assert!(bridge.quit_pending());
}

#[test]
fn present_flushes_the_surface() {
    let mut bridge = bridge();
    let regs = registers(0x01, [0; 4]);
    let result = bridge.dispatch(regs, &greeting());
    assert_eq!(result, Ok(SyscallResult { registers: regs, action: HostAction::Present }));
    assert!(!bridge.quit_pending());
}

#[test]
fn poll_is_left_to_the_host() {
    let mut bridge = bridge();
    let regs = registers(0x02, [0; 4]);
    let result = bridge.dispatch(regs, &greeting());
    assert_eq!(result, Ok(SyscallResult { registers: regs, action: HostAction::PollAndPace }));
    assert_eq!(bridge.keys(), KeyState { pressed: 0, down: 0, up: 0 });
}

#[test]
fn print_string_decodes_the_text() {
    let mut bridge = bridge();
    let regs = registers(0x03, [DATA_BASE + 7, 0, 0, 0]);
    let result = bridge.dispatch(regs, &greeting());
    assert_eq!(
        result,
        Ok(SyscallResult { registers: regs, action: HostAction::WriteText("Square!".to_string()) })
    );
    assert_eq!(bridge.title(), "SuperMIPS");
}

#[test]
fn print_string_reports_decode_errors() {
    let mut bridge = bridge();
    let unterminated = vec![0x6e75_6f42];
    assert_eq!(
        bridge.dispatch(registers(0x03, [DATA_BASE, 0, 0, 0]), &unterminated),
        Err(SuperMipsError::BoundsError)
    );
    assert_eq!(
        bridge.dispatch(registers(0x03, [DATA_BASE + 400, 0, 0, 0]), &greeting()),
        Err(SuperMipsError::BoundsError)
    );
    assert_eq!(
        bridge.dispatch(registers(0x03, [0, 0, 0, 0]), &greeting()),
        Err(SuperMipsError::BoundsError)
    );
    assert_eq!(
        bridge.dispatch(registers(0x03, [DATA_BASE, 0, 0, 0]), &vec![0x0000_80FF]),
        Err(SuperMipsError::EncodingError)
    );
}

#[test]
fn print_number_in_each_format() {
    let mut bridge = bridge();
    let cases = [
        (0xFFFF_FFFFu32, 0u32, "4294967295"),
        (0xFFFF_FFFF, 1, "-1"),
        (0xFFFF_FFFF, 2, "0xFFFFFFFF"),
        (0x0000_0041, 3, "A"),
        (42, 0, "42"),
        (42, 1, "42"),
        (10, 2, "0x0A"),
        (0x1F41, 3, "A"),
    ];
    for (value, format, text) in cases {
        let regs = registers(0x04, [value, format, 0, 0]);
        assert_eq!(
            bridge.dispatch(regs, &greeting()),
            Ok(SyscallResult { registers: regs, action: HostAction::WriteText(text.to_string()) })
        );
    }
}

#[test]
fn print_number_with_an_unknown_format_does_nothing() {
    let mut bridge = bridge();
    for format in [4u32, 5, 100, u32::MAX] {
        let regs = registers(0x04, [42, format, 0, 0]);
        assert_eq!(
            bridge.dispatch(regs, &greeting()),
            Ok(SyscallResult { registers: regs, action: HostAction::Nothing })
        );
    }
}

#[test]
fn set_title_decodes_and_keeps_the_title() {
    let mut bridge = bridge();
    let regs = registers(0x05, [DATA_BASE, 0, 0, 0]);
    assert_eq!(
        bridge.dispatch(regs, &greeting()),
        Ok(SyscallResult {
            registers: regs,
            action: HostAction::SetTitle("Bouncy Square!".to_string())
        })
    );
    assert_eq!(bridge.title(), "Bouncy Square!");
}

#[test]
fn set_title_keeps_the_old_title_on_error() {
    let mut bridge = bridge();
    assert_eq!(
        bridge.dispatch(registers(0x05, [DATA_BASE + 16, 0, 0, 0]), &greeting()),
        Err(SuperMipsError::BoundsError)
    );
    assert_eq!(
        bridge.dispatch(registers(0x05, [DATA_BASE, 0, 0, 0]), &vec![0x0000_00FF]),
        Err(SuperMipsError::EncodingError)
    );
    assert_eq!(bridge.title(), "SuperMIPS");
}

#[test]
fn reseed_changes_no_register() {
    let mut bridge = bridge();
    let regs = registers(0x09, [1, 2, 3, 4]);
    assert_eq!(
        bridge.dispatch(regs, &greeting()),
        Ok(SyscallResult { registers: regs, action: HostAction::Nothing })
    );
}

#[test]
fn next_random_lands_in_the_return_register_only() {
    let mut bridge = bridge();
    let regs = registers(0x0A, [1, 2, 3, 4]);
    let mut values = Vec::new();
    for _ in 0..64 {
        let result = bridge.dispatch(regs, &greeting()).unwrap();
        assert_eq!(result.action, HostAction::Nothing);
        for i in 0..32 {
            if i != RETURN_REGISTER {
                assert_eq!(result.registers[i], regs[i]);
            }
        }
        values.push(result.registers[RETURN_REGISTER]);
    }
    values.sort();
    values.dedup();
    assert!(values.len() > 1);
}

#[test]
fn next_random_from_a_given_value() {
    let mut bridge = bridge();
    let regs = registers(0x0A, [1, 2, 3, 4]);
    let result = bridge.perform(Syscall::NextRandom, regs, &greeting(), 0xCAFE_F00D).unwrap();
    let mut expected = regs;
    expected[2] = 0xCAFE_F00D;
    assert_eq!(result, SyscallResult { registers: expected, action: HostAction::Nothing });
}

#[test]
fn key_queries_return_the_masks() {
    let mut bridge = bridge();
    let mut raw = [false; 14];
    raw[0] = true;
    bridge.poll_and_pace(&raw, 2_000);
    raw[1] = true;
    bridge.poll_and_pace(&raw, 3_000);
    raw[0] = false;
    bridge.poll_and_pace(&raw, 4_000);
    raw[9] = true;
    bridge.poll_and_pace(&raw, 5_000);
    assert_eq!(bridge.keys(), KeyState { pressed: 0b10_0000_0010, down: 0b10_0000_0000, up: 0 });
    bridge.poll_and_pace(&[false; 14], 6_000);
    assert_eq!(bridge.keys(), KeyState { pressed: 0, down: 0, up: 0b10_0000_0010 });
    raw[1] = false;
    raw[12] = true;
    bridge.poll_and_pace(&raw, 7_000);
    assert_eq!(bridge.keys(), KeyState { pressed: 0b1010_0000_0000, down: 0b1010_0000_0000, up: 0 });
    raw[9] = false;
    raw[2] = true;
    bridge.poll_and_pace(&raw, 8_000);
    assert_eq!(
        bridge.keys(),
        KeyState { pressed: 0b1000_0000_0100, down: 0b0100, up: 0b0010_0000_0000 }
    );
    for (selector, value) in [(0x10u32, 0b0100u32), (0x11, 0b0010_0000_0000), (0x12, 0b1000_0000_0100)]
    {
        let regs = registers(selector, [9, 9, 9, 9]);
        let mut expected = regs;
        expected[2] = value;
        assert_eq!(
            bridge.dispatch(regs, &greeting()),
            Ok(SyscallResult { registers: expected, action: HostAction::Nothing })
        );
    }
}

#[test]
fn poll_moves_the_time_of_the_last_frame() {
    let mut bridge = SyscallBridge::new(String::new(), 250, 1_000);
    assert_eq!(bridge.frame_interval(), 250);
    assert_eq!(bridge.last_frame(), 1_000);
    assert_eq!(bridge.poll_and_pace(&[false; 14], 1_100), 150);
    assert_eq!(bridge.frame_interval(), 250);
    assert_eq!(bridge.last_frame(), 1_100);
    assert_eq!(bridge.poll_and_pace(&[false; 14], 900), 250);
    assert_eq!(bridge.last_frame(), 900);
}

#[test]
fn poll_paces_to_the_frame_interval() {
    let mut bridge = SyscallBridge::new(String::new(), 100, 1_000);
    assert_eq!(bridge.poll_and_pace(&[false; 14], 1_000), 100);
    assert_eq!(bridge.poll_and_pace(&[false; 14], 1_040), 60);
    assert_eq!(bridge.poll_and_pace(&[false; 14], 1_140), 0);
    assert_eq!(bridge.poll_and_pace(&[false; 14], 1_400), 0);
    assert_eq!(bridge.poll_and_pace(&[false; 14], 1_499), 1);
    assert_eq!(bridge.poll_and_pace(&[false; 14], 1_400), 100);
    assert_eq!(bridge.poll_and_pace(&[false; 14], u64::MAX), 0);
    let mut immediate = SyscallBridge::new(String::new(), 0, 0);
    assert_eq!(immediate.poll_and_pace(&[false; 14], 0), 0);
    let mut patient = SyscallBridge::new(String::new(), u64::MAX, 10);
    assert_eq!(patient.poll_and_pace(&[false; 14], 11), u64::MAX - 1);
}

#[test]
fn clear_screen_decodes_the_color() {
    let mut bridge = bridge();
    let regs = registers(0x20, [0xFF00_807F, 0, 0, 0]);
    assert_eq!(
        bridge.dispatch(regs, &greeting()),
        Ok(SyscallResult {
            registers: regs,
            action: HostAction::Clear(Color { r: 255, g: 0, b: 128, a: 127 })
        })
    );
}

#[test]
fn fill_rect_decodes_color_and_corners() {
    let mut bridge = bridge();
    let regs = registers(0x22, [0xFF00_00FF, 0x0000_0040, 0x0020_0080, 0]);
    assert_eq!(
        bridge.dispatch(regs, &greeting()),
        Ok(SyscallResult {
            registers: regs,
            action: HostAction::FillRect(
                Color { r: 255, g: 0, b: 0, a: 255 },
                Rect { x: 0, y: 64, width: 32, height: 64 }
            )
        })
    );
}

#[test]
fn dispatch_needs_no_data_for_services_without_strings() {
    let mut bridge = bridge();
    let regs = registers(0x20, [0, 0, 0, 0]);
    assert_eq!(
        bridge.dispatch(regs, &Vec::new()),
        Ok(SyscallResult {
            registers: regs,
            action: HostAction::Clear(Color { r: 0, g: 0, b: 0, a: 0 })
        })
    );
}
