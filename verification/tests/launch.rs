use sol_os::launcher::{
    code_candidates, emulator, exit_code, firmware_path, launch_qemu, missing_firmware,
    parse_arguments, print_help, vars_candidates, Firmware, Plan,
};

const USAGE: &str = "Usage: cargo run -- [--headless] [--monitor PATH] [--print-image]\n";

fn plan(arguments: &[&str]) -> Plan {
    let arguments: Vec<String> = arguments.iter().map(|a| a.to_string()).collect();
    parse_arguments(&arguments, "build/sol-os.img")
}

fn exits(arguments: &[&str]) -> (String, String, u8) {
    match plan(arguments) {
        Plan::Exit {
            output,
            errors,
            code,
        } => (output, errors, code),
        Plan::Launch { .. } => panic!("the machine was started"),
    }
}

fn launches(arguments: &[&str]) -> (bool, Option<String>) {
    match plan(arguments) {
        Plan::Launch { headless, monitor } => (headless, monitor),
        Plan::Exit { .. } => panic!("the launcher exited"),
    }
}

#[test]
fn machine_starts_without_arguments() {
    assert_eq!(launches(&[]), (false, None));
    assert_eq!(launches(&["--headless"]), (true, None));
    assert_eq!(
        launches(&["--monitor", "/tmp/m", "--headless"]),
        (true, Some("/tmp/m".to_string()))
    );
    assert_eq!(
        launches(&["--monitor", "a", "--monitor", "--help"]),
        (false, Some("--help".to_string()))
    );
}

#[test]
fn image_path_is_printed() {
    assert_eq!(
        exits(&["--print-image", "--headless"]),
        ("build/sol-os.img\n".to_string(), String::new(), 0)
    );
}

#[test]
fn help_ends_the_launcher() {
    assert_eq!(print_help(), USAGE);
    for flag in ["--help", "-h"] {
        assert_eq!(
            exits(&["--headless", flag, "--what"]),
            (USAGE.to_string(), String::new(), 0)
        );
    }
}

#[test]
fn wrong_arguments_are_refused() {
    assert_eq!(
        exits(&["--what", "--help"]),
        (
            USAGE.to_string(),
            "unknown argument: --what\n".to_string(),
            2
        )
    );
    assert_eq!(
        exits(&["--monitor"]),
        (
            String::new(),
            "--monitor requires a UNIX socket path\n".to_string(),
            2
        )
    );
}

#[test]
fn machine_boots_from_usb() {
    let arguments = launch_qemu("code.fd", "vars.fd", "disk.img", false, None);
    assert_eq!(
        arguments,
        vec![
            "-machine",
            "q35,accel=tcg,i8042=on,pic=on,pit=on",
            "-cpu",
            "max",
            "-smp",
            "1",
            "-m",
            "512M",
            "-drive",
            "if=pflash,unit=0,format=raw,readonly=on,file=code.fd",
            "-drive",
            "if=pflash,unit=1,format=raw,file=vars.fd",
            "-drive",
            "if=none,id=boot,format=raw,file=disk.img",
            "-device",
            "qemu-xhci,id=xhci",
            "-device",
            "usb-storage,drive=boot,bus=xhci.0,bootindex=1",
            "-serial",
            "stdio",
            "-monitor",
            "none",
        ]
    );
}

#[test]
fn monitor_and_display_come_last() {
    let arguments = launch_qemu("c", "v", "d", true, Some("/tmp/m"));
    assert_eq!(
        arguments[20..],
        [
            "-monitor",
            "unix:/tmp/m,server=on,wait=off",
            "-display",
            "none"
        ]
    );
}

#[test]
fn named_firmware_wins() {
    assert_eq!(firmware_path(Some(true), &[true]), Firmware::Named);
    assert_eq!(
        firmware_path(Some(false), &[false, true, true]),
        Firmware::Candidate(1)
    );
    assert_eq!(firmware_path(None, &[true, false]), Firmware::Candidate(0));
    assert_eq!(firmware_path(None, &[false, false]), Firmware::Missing);
    assert_eq!(firmware_path(None, &[]), Firmware::Missing);
}

#[test]
fn firmware_has_usual_places() {
    assert_eq!(code_candidates().len(), 4);
    assert_eq!(code_candidates()[1], "/usr/share/OVMF/OVMF_CODE.fd");
    assert_eq!(
        vars_candidates(),
        vec![
            "/opt/homebrew/share/qemu/edk2-i386-vars.fd",
            "/usr/share/OVMF/OVMF_VARS.fd",
            "/usr/share/edk2/x64/OVMF_VARS.fd",
            "/usr/share/edk2/ovmf/OVMF_VARS.fd",
        ]
    );
    assert_eq!(
        missing_firmware("OVMF_CODE"),
        "OVMF_CODE firmware file was not found; set OVMF_CODE"
    );
}

#[test]
fn exit_codes_are_passed_on() {
    assert_eq!(exit_code(Some(0)), 0);
    assert_eq!(exit_code(Some(3)), 3);
    assert_eq!(exit_code(Some(257)), 1);
    assert_eq!(exit_code(Some(-1)), 255);
    assert_eq!(exit_code(None), 1);
}

#[test]
fn named_emulator_is_started() {
    assert_eq!(emulator(Some("/opt/qemu/bin/qemu".to_string())), "/opt/qemu/bin/qemu");
    assert_eq!(emulator(Some(String::new())), "");
    assert_eq!(emulator(None), "qemu-system-x86_64");
}
