//! The host-side launcher: its arguments, its firmware, and the machine that it starts.

use vstd::prelude::*;

use crate::text;

verus! {

/// What the arguments have asked for so far. `awaits_path` says that the next argument
/// is the path for the monitor.
#[verifier::ext_equal]
pub struct OptionsModel {
    pub headless: bool,
    pub print_image: bool,
    pub monitor: Option<Seq<char>>,
    pub awaits_path: bool,
}

/// What the launcher is to do: print and exit, or start the machine.
#[verifier::ext_equal]
pub enum PlanModel {
    Exit { output: Seq<char>, errors: Seq<char>, code: u8 },
    Launch { headless: bool, monitor: Option<Seq<char>> },
}

/// The text that explains the arguments.
pub open spec fn usage() -> Seq<char> {
    "Usage: cargo run -- [--headless] [--monitor PATH] [--print-image]\n"@
}

impl OptionsModel {
    /// Before the first argument.
    pub open spec fn none() -> OptionsModel {
        OptionsModel { headless: false, print_image: false, monitor: None, awaits_path: false }
    }

    /// Reads one argument: the options go on, or the launcher exits at once.
    pub open spec fn with_argument(self, argument: Seq<char>) -> Result<OptionsModel, PlanModel> {
        if self.awaits_path {
            Ok(OptionsModel { monitor: Some(argument), awaits_path: false, ..self })
        } else if argument == "--headless"@ {
            Ok(OptionsModel { headless: true, ..self })
        } else if argument == "--print-image"@ {
            Ok(OptionsModel { print_image: true, ..self })
        } else if argument == "--monitor"@ {
            Ok(OptionsModel { awaits_path: true, ..self })
        } else if argument == "--help"@ || argument == "-h"@ {
            Err(PlanModel::Exit { output: usage(), errors: Seq::empty(), code: 0 })
        } else {
            Err(
                PlanModel::Exit {
                    output: usage(),
                    errors: "unknown argument: "@ + argument + "\n"@,
                    code: 2,
                },
            )
        }
    }

    /// What to do when the arguments are over.
    pub open spec fn plan(self, image: Seq<char>) -> PlanModel {
        if self.awaits_path {
            PlanModel::Exit {
                output: Seq::empty(),
                errors: "--monitor requires a UNIX socket path\n"@,
                code: 2,
            }
        } else if self.print_image {
            PlanModel::Exit { output: image + "\n"@, errors: Seq::empty(), code: 0 }
        } else {
            PlanModel::Launch { headless: self.headless, monitor: self.monitor }
        }
    }
}

/// The options after a list of arguments, up to the first that makes the launcher exit.
pub open spec fn options_after(options: OptionsModel, arguments: Seq<Seq<char>>) -> Result<
    OptionsModel,
    PlanModel,
>
    decreases arguments.len(),
{
    if arguments.len() == 0 {
        Ok(options)
    } else {
        match options_after(options, arguments.drop_last()) {
            Ok(read) => read.with_argument(arguments.last()),
            Err(plan) => Err(plan),
        }
    }
}

/// What a list of arguments asks for.
pub open spec fn plan_for(arguments: Seq<Seq<char>>, image: Seq<char>) -> PlanModel {
    match options_after(OptionsModel::none(), arguments) {
        Ok(options) => options.plan(image),
        Err(plan) => plan,
    }
}

/// The options read so far.
struct Options {
    headless: bool,
    print_image: bool,
    monitor: Option<String>,
    awaits_path: bool,
}

impl View for Options {
    type V = OptionsModel;

    closed spec fn view(&self) -> OptionsModel {
        OptionsModel {
            headless: self.headless,
            print_image: self.print_image,
            monitor: match self.monitor {
                Some(path) => Some(path@),
                None => None,
            },
            awaits_path: self.awaits_path,
        }
    }
}

/// What the launcher is to do.
#[derive(Debug)]
pub enum Plan {
    Exit { output: String, errors: String, code: u8 },
    Launch { headless: bool, monitor: Option<String> },
}

impl View for Plan {
    type V = PlanModel;

    open spec fn view(&self) -> PlanModel {
        match *self {
            Plan::Exit { output, errors, code } => PlanModel::Exit {
                output: output@,
                errors: errors@,
                code,
            },
            Plan::Launch { headless, monitor } => PlanModel::Launch {
                headless,
                monitor: match monitor {
                    Some(path) => Some(path@),
                    None => None,
                },
            },
        }
    }
}

/// A list of strings as texts.
pub open spec fn texts(strings: Seq<String>) -> Seq<Seq<char>> {
    strings.map_values(|string: String| string@)
}

fn string_of(part: &str) -> (string: String)
    ensures
        string@ == part@,
{
    let mut string: String = String::new();
    string.append(part);
    assert(string@ =~= part@);
    string
}

/// The text that explains the arguments.
pub fn print_help() -> (help: String)
    ensures
        help@ == usage(),
{
    string_of("Usage: cargo run -- [--headless] [--monitor PATH] [--print-image]\n")
}

/// Reads one argument.
fn read_argument(options: Options, argument: &str) -> (read: Result<Options, Plan>)
    ensures
        match read {
            Ok(after) => options@.with_argument(argument@) == Ok::<OptionsModel, PlanModel>(after@),
            Err(plan) => options@.with_argument(argument@) == Err::<OptionsModel, PlanModel>(
                plan@,
            ),
        },
{
    let mut options: Options = options;
    if options.awaits_path {
        options.monitor = Some(string_of(argument));
        options.awaits_path = false;
        Ok(options)
    } else if text::same_text(argument, "--headless") {
        options.headless = true;
        Ok(options)
    } else if text::same_text(argument, "--print-image") {
        options.print_image = true;
        Ok(options)
    } else if text::same_text(argument, "--monitor") {
        options.awaits_path = true;
        Ok(options)
    } else if text::same_text(argument, "--help") || text::same_text(argument, "-h",
    ) {
        let plan: Plan = Plan::Exit { output: print_help(), errors: String::new(), code: 0 };
        assert(plan@ =~= (PlanModel::Exit { output: usage(), errors: Seq::empty(), code: 0 }));
        Err(plan)
    } else {
        let mut errors: String = string_of("unknown argument: ");
        errors.append(argument);
        errors.append("\n");
        Err(Plan::Exit { output: print_help(), errors, code: 2 })
    }
}

/// Reads the arguments and decides what to do. `image` is the path of the disk image.
pub fn parse_arguments(arguments: &[String], image: &str) -> (plan: Plan)
    ensures
        plan@ == plan_for(texts(arguments@), image@),
{
    let ghost all = texts(arguments@);
    let mut options: Options = Options {
        headless: false,
        print_image: false,
        monitor: None,
        awaits_path: false,
    };
    let mut index: usize = 0;
    while index < arguments.len()
        invariant
            index <= arguments@.len(),
            all == texts(arguments@),
            options_after(OptionsModel::none(), all.take(index as int)) == Ok::<
                OptionsModel,
                PlanModel,
            >(options@),
        decreases arguments@.len() - index,
    {
        assert(all.take(index + 1).drop_last() =~= all.take(index as int));
        assert(all.take(index + 1).last() == arguments@[index as int]@);
        match read_argument(options, arguments[index].as_str()) {
            Ok(read) => {
                options = read;
            },
            Err(plan) => {
                proof {
                    lemma_exit_is_final(OptionsModel::none(), all, index + 1);
                }
                return plan;
            },
        }
        index += 1;
    }
    assert(all.take(index as int) =~= all);
    if options.awaits_path {
        let plan: Plan = Plan::Exit {
            output: String::new(),
            errors: string_of("--monitor requires a UNIX socket path\n"),
            code: 2,
        };
        assert(plan@ =~= options@.plan(image@));
        plan
    } else if options.print_image {
        let mut output: String = string_of(image);
        output.append("\n");
        let plan: Plan = Plan::Exit { output, errors: String::new(), code: 0 };
        assert(plan@ =~= options@.plan(image@));
        plan
    } else {
        Plan::Launch { headless: options.headless, monitor: options.monitor }
    }
}

/// What follows an argument that makes the launcher exit does not matter.
proof fn lemma_exit_is_final(options: OptionsModel, arguments: Seq<Seq<char>>, count: int)
    requires
        0 <= count <= arguments.len(),
        options_after(options, arguments.take(count)) is Err,
    ensures
        options_after(options, arguments) == options_after(options, arguments.take(count)),
    decreases arguments.len(),
{
    if count == arguments.len() {
        assert(arguments.take(count) =~= arguments);
    } else {
        assert(arguments.drop_last().take(count) =~= arguments.take(count));
        lemma_exit_is_final(options, arguments.drop_last(), count);
    }
}

/// Arguments are read in order, and the first that makes the launcher exit decides,
/// whatever comes after it.
pub proof fn law_first_exit_decides(
    before: Seq<Seq<char>>,
    after: Seq<Seq<char>>,
    image: Seq<char>,
)
    requires
        options_after(OptionsModel::none(), before) is Err,
    ensures
        plan_for(before + after, image) == plan_for(before, image),
{
    assert((before + after).take(before.len() as int) =~= before);
    lemma_exit_is_final(OptionsModel::none(), before + after, before.len() as int);
}

/// The arguments of the emulator: the machine, the two firmware images, the disk image on
/// a USB stick, the serial line, and then the monitor and the display.
pub open spec fn machine_arguments(
    code: Seq<char>,
    vars: Seq<char>,
    image: Seq<char>,
    headless: bool,
    monitor: Option<Seq<char>>,
) -> Seq<Seq<char>> {
    seq![
        "-machine"@,
        "q35,accel=tcg,i8042=on,pic=on,pit=on"@,
        "-cpu"@,
        "max"@,
        "-smp"@,
        "1"@,
        "-m"@,
        "512M"@,
        "-drive"@,
        "if=pflash,unit=0,format=raw,readonly=on,file="@ + code,
        "-drive"@,
        "if=pflash,unit=1,format=raw,file="@ + vars,
        "-drive"@,
        "if=none,id=boot,format=raw,file="@ + image,
        "-device"@,
        "qemu-xhci,id=xhci"@,
        "-device"@,
        "usb-storage,drive=boot,bus=xhci.0,bootindex=1"@,
        "-serial"@,
        "stdio"@,
        "-monitor"@,
        match monitor {
            Some(path) => "unix:"@ + path + ",server=on,wait=off"@,
            None => "none"@,
        },
    ] + if headless {
        seq!["-display"@, "none"@]
    } else {
        Seq::empty()
    }
}

fn push_part(arguments: &mut Vec<String>, part: &str)
    ensures
        texts(final(arguments)@) == texts(old(arguments)@).push(part@),
{
    arguments.push(string_of(part));
    assert(texts(arguments@) =~= texts(old(arguments)@).push(part@));
}

/// Appends an option that ends in a path.
fn push_path(arguments: &mut Vec<String>, option: &str, path: &str)
    ensures
        texts(final(arguments)@) == texts(old(arguments)@).push(option@ + path@),
{
    let mut part: String = string_of(option);
    part.append(path);
    arguments.push(part);
    assert(texts(arguments@) =~= texts(old(arguments)@).push(option@ + path@));
}

/// The arguments that start the machine in the emulator.
pub fn launch_qemu(
    code: &str,
    vars: &str,
    image: &str,
    headless: bool,
    monitor: Option<&str>,
) -> (arguments: Vec<String>)
    ensures
        texts(arguments@) == machine_arguments(
            code@,
            vars@,
            image@,
            headless,
            match monitor {
                Some(path) => Some(path@),
                None => None,
            },
        ),
{
    let mut arguments: Vec<String> = Vec::new();
    assert(texts(arguments@) =~= Seq::<Seq<char>>::empty());
    push_part(&mut arguments, "-machine");
    push_part(&mut arguments, "q35,accel=tcg,i8042=on,pic=on,pit=on");
    push_part(&mut arguments, "-cpu");
    push_part(&mut arguments, "max");
    push_part(&mut arguments, "-smp");
    push_part(&mut arguments, "1");
    push_part(&mut arguments, "-m");
    push_part(&mut arguments, "512M");
    push_part(&mut arguments, "-drive");
    push_path(&mut arguments, "if=pflash,unit=0,format=raw,readonly=on,file=", code);
    push_part(&mut arguments, "-drive");
    push_path(&mut arguments, "if=pflash,unit=1,format=raw,file=", vars);
    push_part(&mut arguments, "-drive");
    push_path(&mut arguments, "if=none,id=boot,format=raw,file=", image);
    push_part(&mut arguments, "-device");
    push_part(&mut arguments, "qemu-xhci,id=xhci");
    push_part(&mut arguments, "-device");
    push_part(&mut arguments, "usb-storage,drive=boot,bus=xhci.0,bootindex=1");
    push_part(&mut arguments, "-serial");
    push_part(&mut arguments, "stdio");
    push_part(&mut arguments, "-monitor");
    match monitor {
        Some(path) => {
            let mut part: String = string_of("unix:");
            part.append(path);
            push_path(&mut arguments, part.as_str(), ",server=on,wait=off");
        },
        None => push_part(&mut arguments, "none"),
    }
    if headless {
        push_part(&mut arguments, "-display");
        push_part(&mut arguments, "none");
    }
    assert(texts(arguments@) =~= machine_arguments(
        code@,
        vars@,
        image@,
        headless,
        match monitor {
            Some(path) => Some(path@),
            None => None,
        },
    ));
    arguments
}

/// Which firmware file to use: the one that the environment names, or one of the usual
/// places.
#[derive(Debug, Clone, Copy, PartialEq, Eq, Structural)]
pub enum Firmware {
    Named,
    Candidate(usize),
    Missing,
}

/// The first place that holds a file, or their number.
pub open spec fn first_file(files: Seq<bool>) -> nat
    decreases files.len(),
{
    if files.len() == 0 || files[0] {
        0
    } else {
        1 + first_file(files.skip(1))
    }
}

/// Picks a firmware file. `named` says whether the environment names one and whether it is
/// a file; `candidates` says which of the usual places hold a file.
pub fn firmware_path(named: Option<bool>, candidates: &[bool]) -> (firmware: Firmware)
    ensures
        firmware == if named == Some(true) {
            Firmware::Named
        } else if first_file(candidates@) < candidates@.len() {
            Firmware::Candidate(first_file(candidates@) as usize)
        } else {
            Firmware::Missing
        },
        firmware is Named <==> named == Some(true),
        firmware matches Firmware::Candidate(place) ==> place < candidates@.len()
            && candidates@[place as int] && forall|i: int|
            0 <= i < place ==> !(#[trigger] candidates@[i]),
        firmware is Missing ==> forall|i: int|
            0 <= i < candidates@.len() ==> !(#[trigger] candidates@[i]),
{
    proof {
        law_first_file_is_first(candidates@);
    }
    if let Some(true) = named {
        return Firmware::Named;
    }
    let mut index: usize = 0;
    assert(candidates@.skip(0) =~= candidates@);
    while index < candidates.len()
        invariant
            index <= candidates@.len(),
            named != Some(true),
            first_file(candidates@) == index + first_file(candidates@.skip(index as int)),
        decreases candidates@.len() - index,
    {
        assert(candidates@.skip(index as int)[0] == candidates@[index as int]);
        if candidates[index] {
            proof {
                law_first_file_is_first(candidates@);
            }
            return Firmware::Candidate(index);
        }
        assert(candidates@.skip(index as int).skip(1) =~= candidates@.skip(index + 1));
        index += 1;
    }
    Firmware::Missing
}

/// The usual places of the firmware code.
pub fn code_candidates() -> (paths: Vec<String>)
    ensures
        texts(paths@) == seq![
            "/opt/homebrew/share/qemu/edk2-x86_64-code.fd"@,
            "/usr/share/OVMF/OVMF_CODE.fd"@,
            "/usr/share/edk2/x64/OVMF_CODE.fd"@,
            "/usr/share/edk2/ovmf/OVMF_CODE.fd"@,
        ],
{
    let mut paths: Vec<String> = Vec::new();
    assert(texts(paths@) =~= Seq::<Seq<char>>::empty());
    push_part(&mut paths, "/opt/homebrew/share/qemu/edk2-x86_64-code.fd");
    push_part(&mut paths, "/usr/share/OVMF/OVMF_CODE.fd");
    push_part(&mut paths, "/usr/share/edk2/x64/OVMF_CODE.fd");
    push_part(&mut paths, "/usr/share/edk2/ovmf/OVMF_CODE.fd");
    paths
}

/// The usual places of the firmware variables.
pub fn vars_candidates() -> (paths: Vec<String>)
    ensures
        texts(paths@) == seq![
            "/opt/homebrew/share/qemu/edk2-i386-vars.fd"@,
            "/usr/share/OVMF/OVMF_VARS.fd"@,
            "/usr/share/edk2/x64/OVMF_VARS.fd"@,
            "/usr/share/edk2/ovmf/OVMF_VARS.fd"@,
        ],
{
    let mut paths: Vec<String> = Vec::new();
    assert(texts(paths@) =~= Seq::<Seq<char>>::empty());
    push_part(&mut paths, "/opt/homebrew/share/qemu/edk2-i386-vars.fd");
    push_part(&mut paths, "/usr/share/OVMF/OVMF_VARS.fd");
    push_part(&mut paths, "/usr/share/edk2/x64/OVMF_VARS.fd");
    push_part(&mut paths, "/usr/share/edk2/ovmf/OVMF_VARS.fd");
    paths
}

/// The emulator that is started: the one that the user names, or the usual one.
pub fn emulator(named: Option<String>) -> (program: String)
    ensures
        program@ == (match named {
            Some(path) => path@,
            None => "qemu-system-x86_64"@,
        }),
{
    match named {
        Some(path) => path,
        None => string_of("qemu-system-x86_64"),
    }
}

/// What is said where no firmware file was found.
pub fn missing_firmware(variable: &str) -> (message: String)
    ensures
        message@ == variable@ + " firmware file was not found; set "@ + variable@,
{
    let mut message: String = string_of(variable);
    message.append(" firmware file was not found; set ");
    message.append(variable);
    message
}

/// The launcher's exit code after the emulator ended: the emulator's own, cut to a byte,
/// or 1 where it was killed.
pub fn exit_code(code: Option<i32>) -> (exit: u8)
    ensures
        exit == match code {
            Some(code) => code as u8,
            None => 1u8,
        },
        code matches Some(number) ==> (number - exit) % 256 == 0,
        code matches Some(number) ==> (0 <= number <= 255 ==> exit == number),
        code is None ==> exit != 0,
{
    proof {
        if let Some(number) = code {
            assert((number - (number as u8)) % 256 == 0) by (bit_vector);
        }
    }
    match code {
        Some(code) => code as u8,
        None => 1,
    }
}

/// What one more option adds to arguments that were all understood. `--headless` takes the
/// display away, `--monitor` takes the path behind it, and a later path replaces an earlier
/// one; `--print-image` prints the image's path and starts nothing.
pub proof fn law_options_add_up(arguments: Seq<Seq<char>>, path: Seq<char>, image: Seq<char>)
    requires
        options_after(OptionsModel::none(), arguments) is Ok,
        plan_for(arguments, image) is Launch,
    ensures
        ({
            let before = plan_for(arguments, image);
            &&& plan_for(arguments.push("--headless"@), image) == (PlanModel::Launch {
                headless: true,
                monitor: before->monitor,
            })
            &&& plan_for(arguments.push("--monitor"@).push(path), image) == (PlanModel::Launch {
                headless: before->headless,
                monitor: Some(path),
            })
            &&& plan_for(arguments.push("--print-image"@), image) == (PlanModel::Exit {
                output: image.push('\n'),
                errors: Seq::empty(),
                code: 0,
            })
            &&& plan_for(arguments.push("--monitor"@), image) matches PlanModel::Exit {
                output,
                code,
                errors,
            } && output.len() == 0 && code == 2 && errors
                == "--monitor requires a UNIX socket path\n"@
        }),
{
    reveal_strlit("--headless");
    reveal_strlit("--monitor");
    reveal_strlit("--print-image");
    reveal_strlit("\n");
    assert("--headless"@.len() == 10 && "--monitor"@.len() == 9 && "--print-image"@.len() == 13);
    assert(arguments.push("--headless"@).drop_last() =~= arguments);
    assert(arguments.push("--monitor"@).drop_last() =~= arguments);
    assert(arguments.push("--print-image"@).drop_last() =~= arguments);
    assert(arguments.push("--monitor"@).push(path).drop_last() =~= arguments.push("--monitor"@));
    assert(image + "\n"@ =~= image.push('\n'));
}

/// Without arguments the machine starts with a display and without a monitor.
pub proof fn law_no_arguments(image: Seq<char>)
    ensures
        plan_for(Seq::empty(), image) == (PlanModel::Launch { headless: false, monitor: None }),
{
}

/// Help is asked for by two names, and ends the launcher well. What is no option ends it
/// with an error that tells the argument. Both print the usage.
pub proof fn law_other_arguments_end_launcher(
    arguments: Seq<Seq<char>>,
    argument: Seq<char>,
    image: Seq<char>,
)
    requires
        options_after(OptionsModel::none(), arguments) matches Ok(options) && !options.awaits_path,
        argument != "--headless"@,
        argument != "--monitor"@,
        argument != "--print-image"@,
    ensures
        plan_for(arguments.push(argument), image) == if argument == "--help"@ || argument == "-h"@ {
            PlanModel::Exit { output: usage(), errors: Seq::empty(), code: 0 }
        } else {
            PlanModel::Exit {
                output: usage(),
                errors: "unknown argument: "@ + argument + "\n"@,
                code: 2,
            }
        },
{
    assert(arguments.push(argument).drop_last() =~= arguments);
}

/// The firmware is the first of the usual places that holds a file: none before it does.
pub proof fn law_first_file_is_first(files: Seq<bool>)
    ensures
        first_file(files) <= files.len(),
        forall|i: int| 0 <= i < first_file(files) ==> !(#[trigger] files[i]),
        first_file(files) < files.len() ==> files[first_file(files) as int],
    decreases files.len(),
{
    if files.len() > 0 && !files[0] {
        law_first_file_is_first(files.skip(1));
        let n = first_file(files.skip(1)) as int;
        assert forall|i: int| 0 <= i < first_file(files) implies !(#[trigger] files[i]) by {
            if i > 0 {
                assert(files[i] == files.skip(1)[i - 1]);
            }
        }
        assert(n < files.len() - 1 ==> files.skip(1)[n] == files[n + 1]);
    }
}

/// The machine's arguments come in pairs of an option and its value. The two firmware
/// images and the disk image are drives of their own, the code read-only; the disk is a USB
/// stick on the controller; only the monitor and the display depend on what was asked for.
pub proof fn law_machine_arguments(
    code: Seq<char>,
    vars: Seq<char>,
    image: Seq<char>,
    headless: bool,
    monitor: Option<Seq<char>>,
)
    ensures
        ({
            let arguments = machine_arguments(code, vars, image, headless, monitor);
            &&& arguments.len() == if headless {
                24int
            } else {
                22
            }
            &&& arguments[8] == "-drive"@ && arguments[9]
                == "if=pflash,unit=0,format=raw,readonly=on,file="@ + code
            &&& arguments[10] == "-drive"@ && arguments[11] == "if=pflash,unit=1,format=raw,file="@
                + vars
            &&& arguments[12] == "-drive"@ && arguments[13] == "if=none,id=boot,format=raw,file="@
                + image
            &&& arguments[14] == "-device"@ && arguments[15] == "qemu-xhci,id=xhci"@
            &&& arguments[16] == "-device"@ && arguments[17]
                == "usb-storage,drive=boot,bus=xhci.0,bootindex=1"@
            &&& arguments[18] == "-serial"@ && arguments[19] == "stdio"@
            &&& arguments[20] == "-monitor"@
            &&& monitor is None ==> arguments[21] == "none"@
            &&& monitor matches Some(path) ==> arguments[21] == "unix:"@ + path
                + ",server=on,wait=off"@
            &&& headless ==> arguments[22] == "-display"@ && arguments[23] == "none"@
            &&& arguments.take(20) == machine_arguments(code, vars, image, !headless, None).take(20)
        }),
{
    assert(machine_arguments(code, vars, image, headless, monitor).take(20)
        =~= machine_arguments(code, vars, image, !headless, None).take(20));
}

} // verus!
