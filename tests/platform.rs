use journal_telemetry::platform::{choose_model, command_text, cpu_name, os_name, start};
use journal_telemetry::{GenericPlatform, PlatformSources};

fn some(s: &str) -> Option<String> {
    Some(s.to_string())
}

#[test]
fn model_prefers_device_tree() {
    let m = choose_model(&some("Raspberry Pi 4 Model B\0"), &some("PC"), &None);
    assert_eq!(m, "Raspberry Pi 4 Model B");
}

#[test]
fn model_skips_placeholder_names() {
    assert_eq!(choose_model(&some(" \0"), &some("Default string\n"), &some("X570\n")), "X570");
    assert_eq!(choose_model(&None, &some("Default string"), &some("Default string")), "Unknown");
    assert_eq!(choose_model(&None, &None, &None), "Unknown");
}

#[test]
fn cpu_name_from_lscpu() {
    let lscpu = some("Architecture: x86_64\nModel name:   AMD Ryzen 7 5800X\nThread(s): 2\n");
    assert_eq!(cpu_name(&lscpu, &None), "AMD Ryzen 7 5800X");
}

#[test]
fn cpu_name_from_cpuinfo() {
    let info = some("processor\t: 0\nmodel name\t: Intel(R) Core(TM)\nflags\t: fpu\n");
    assert_eq!(cpu_name(&some("Architecture: arm\n"), &info), "Intel(R) Core(TM)");
    let arm = some("processor\t: 0\nHardware\t: BCM2835\nRevision\t: c03111\n");
    assert_eq!(cpu_name(&None, &arm), "BCM2835");
    assert_eq!(cpu_name(&None, &some("processor: 0\n")), "Unknown");
}

#[test]
fn os_name_from_pretty_name() {
    let rel = some("NAME=\"Debian\"\nPRETTY_NAME=\"Debian GNU/Linux 12 (bookworm)\"\nID=debian\n");
    assert_eq!(os_name(&rel), "Debian GNU/Linux 12 (bookworm)");
    assert_eq!(os_name(&some("NAME=Arch\n")), "Linux");
    assert_eq!(os_name(&None), "Linux");
}

#[test]
fn command_output_is_trimmed() {
    assert_eq!(command_text(&some("aarch64\n")), "aarch64");
    assert_eq!(command_text(&some("")), "");
    assert_eq!(command_text(&None), "Unknown");
}

#[test]
fn generic_platform_from_sources() {
    start();
    let p = GenericPlatform::new(&PlatformSources {
        device_tree_model: None,
        product_name: some("ThinkPad\n"),
        board_name: None,
        machine: some("x86_64\n"),
        lscpu: None,
        cpuinfo: some("model name : Core\n"),
        release: some("6.1.0\n"),
        os_release: some("PRETTY_NAME=Ubuntu\n"),
    });
    assert_eq!(p.model, "ThinkPad");
    assert_eq!(p.arch, "x86_64");
    assert_eq!(p.cpu_name, "Core");
    assert_eq!(p.kernel, "6.1.0");
    assert_eq!(p.os_name, "Ubuntu");
}
