use tauri_uninstaller::uninstall::runner::{
    append_silent_args, extract_msi_guid, kill_result, parse_uninstall_string, uninstaller_launch,
    wait_step, ParsedCommand, ProcessPoll, WaitStep,
};

fn strings(v: &[&str]) -> Vec<String> {
    v.iter().map(|s| s.to_string()).collect()
}

fn parsed(program: &str, args: &[&str], is_msi: bool) -> ParsedCommand {
    ParsedCommand {
        program: program.to_string(),
        args: strings(args),
        is_msi,
        msi_code: None,
        raw: String::new(),
    }
}

#[test]
fn parse_quoted_program_with_switch() {
    let p = parse_uninstall_string("  \"C:\\Program Files\\App\\uninst.exe\" /S  ");
    assert_eq!(p.program, "C:\\Program Files\\App\\uninst.exe");
    assert_eq!(p.args, strings(&["/S"]));
    assert!(!p.is_msi);
    assert_eq!(p.msi_code, None);
    assert_eq!(p.raw, "\"C:\\Program Files\\App\\uninst.exe\" /S");
}

#[test]
fn parse_msi_command() {
    let p = parse_uninstall_string("MsiExec.exe /I{12345678-1234-1234-1234-123456789012}");
    assert!(p.is_msi);
    assert_eq!(p.program, "msiexec");
    assert_eq!(
        p.args,
        strings(&["/X", "{12345678-1234-1234-1234-123456789012}", "/qn", "/norestart"])
    );
    assert_eq!(p.msi_code.as_deref(), Some("{12345678-1234-1234-1234-123456789012}"));
}

#[test]
fn parse_msiexec_without_product_code_is_plain() {
    let p = parse_uninstall_string("MsiExec.exe /I{abc}");
    assert!(!p.is_msi);
    assert_eq!(p.program, "MsiExec.exe");
    assert_eq!(p.args, strings(&["/I{abc}"]));
}

#[test]
fn parse_guid_without_msiexec_is_plain() {
    let p = parse_uninstall_string("setup.exe {12345678-1234-1234-1234-123456789012}");
    assert!(!p.is_msi);
    assert_eq!(p.program, "setup.exe");
}

#[test]
fn parse_blank_command() {
    let p = parse_uninstall_string(" \t ");
    assert_eq!(p.program, "");
    assert!(p.args.is_empty());
    assert_eq!(p.raw, "");
}

#[test]
fn parse_keeps_quotes_in_arguments() {
    let p = parse_uninstall_string("\"a b\" \"c d\"\te");
    assert_eq!(p.program, "a b");
    assert_eq!(p.args, strings(&["\"c d\"", "e"]));
}

#[test]
fn parse_collapses_repeated_blanks() {
    let p = parse_uninstall_string("run.exe   --remove    --all");
    assert_eq!(p.program, "run.exe");
    assert_eq!(p.args, strings(&["--remove", "--all"]));
}

#[test]
fn parse_unicode_whitespace_is_trimmed() {
    let p = parse_uninstall_string("\u{3000}app.exe /x\u{a0}");
    assert_eq!(p.raw, "app.exe /x");
    assert_eq!(p.program, "app.exe");
    assert_eq!(p.args, strings(&["/x"]));
}

#[test]
fn msi_guid_found() {
    assert_eq!(
        extract_msi_guid("x {AAAAAAAA-BBBB-CCCC-DDDD-EEEEEEEEEEEE} y").as_deref(),
        Some("{AAAAAAAA-BBBB-CCCC-DDDD-EEEEEEEEEEEE}")
    );
}

#[test]
fn msi_guid_rejected() {
    assert_eq!(extract_msi_guid("no braces"), None);
    assert_eq!(extract_msi_guid("} before {a-b-c-d-e}"), None);
    assert_eq!(extract_msi_guid("{a-b-c-d}"), None);
    assert_eq!(extract_msi_guid("{a--b-c-d}"), None);
    assert_eq!(extract_msi_guid("{a-b-c-d-e-f}"), None);
    assert_eq!(extract_msi_guid("{a-b-c-d-e}").as_deref(), Some("{a-b-c-d-e}"));
}

#[test]
fn silent_nsis_by_program_name() {
    let p = parsed("C:\\X\\Uninst.exe", &["--keep"], false);
    assert_eq!(append_silent_args(&p), strings(&["--keep", "/S"]));
}

#[test]
fn silent_already_present() {
    let p = parsed("setup.exe", &["/SILENT"], false);
    assert_eq!(append_silent_args(&p), strings(&["/SILENT"]));
    let q = parsed("setup.exe", &["--mode=-quiet"], false);
    assert_eq!(append_silent_args(&q), strings(&["--mode=-quiet"]));
}

#[test]
fn silent_inno_setup() {
    let p = parsed("unins000.exe", &["/LOG=innosetup.log"], false);
    assert_eq!(
        append_silent_args(&p),
        strings(&["/LOG=innosetup.log", "/VERYSILENT", "/SUPPRESSMSGBOXES", "/NORESTART"])
    );
}

#[test]
fn silent_wix_burn() {
    let p = parsed("bundle.exe", &["-burn.clean.room"], false);
    assert_eq!(append_silent_args(&p), strings(&["-burn.clean.room", "-quiet"]));
}

#[test]
fn silent_fallback_switch() {
    let p = parsed("remove.exe", &[], false);
    assert_eq!(append_silent_args(&p), strings(&["/S"]));
}

#[test]
fn silent_msi_untouched() {
    let p = parsed("msiexec", &["/X", "{G}", "/qn", "/norestart"], true);
    assert_eq!(append_silent_args(&p), strings(&["/X", "{G}", "/qn", "/norestart"]));
}

#[test]
fn launch_plain_silent() {
    let p = parsed("remove.exe", &["a"], false);
    let l = uninstaller_launch(&p, true, None);
    assert_eq!(l.program, "remove.exe");
    assert_eq!(l.args, strings(&["a", "/S"]));
    let l2 = uninstaller_launch(&p, false, None);
    assert_eq!(l2.args, strings(&["a"]));
}

#[test]
fn launch_msi_uses_system_msiexec() {
    let p = parsed("msiexec", &["/X", "{G}"], true);
    let l = uninstaller_launch(&p, true, Some("D:\\Win".to_string()));
    assert_eq!(l.program, "D:\\Win\\System32\\msiexec.exe");
    assert_eq!(l.args, strings(&["/X", "{G}"]));
    let l2 = uninstaller_launch(&p, true, None);
    assert_eq!(l2.program, "C:\\Windows\\System32\\msiexec.exe");
}

#[test]
fn wait_steps() {
    assert!(matches!(
        wait_step(ProcessPoll::Exited(Some(3)), 0, 10),
        WaitStep::Finished { timed_out: false, exit_code: Some(3) }
    ));
    assert!(matches!(wait_step(ProcessPoll::Running, 5, 10), WaitStep::Sleep));
    assert!(matches!(
        wait_step(ProcessPoll::Running, 10, 10),
        WaitStep::Finished { timed_out: true, exit_code: None }
    ));
    match wait_step(ProcessPoll::Failed("denied".to_string()), 0, 10) {
        WaitStep::Failed(m) => assert_eq!(m, "等待卸载进程失败: denied"),
        other => panic!("unexpected {:?}", other),
    }
}

#[test]
fn kill_results() {
    assert_eq!(kill_result(true, "ignored"), Ok(()));
    assert_eq!(kill_result(false, "  ERROR: not found \r\n"), Err("ERROR: not found".to_string()));
}

#[test]
fn parse_of_recorded_command_is_stable() {
    for raw in ["  a.exe  /x \"b c\"  ", "MsiExec /X{1-2-3-4-5} ", "\t", "\"\""] {
        let p = parse_uninstall_string(raw);
        let q = parse_uninstall_string(&p.raw);
        assert_eq!(p.program, q.program);
        assert_eq!(p.args, q.args);
        assert_eq!(p.is_msi, q.is_msi);
        assert_eq!(p.msi_code, q.msi_code);
        assert_eq!(p.raw, q.raw);
    }
}

#[test]
fn silent_switches_added_once() {
    for raw in ["C:\\App\\uninst.exe", "setup.exe /nsis", "bundle.exe -burn", "inno.exe /innosetup", "x.exe"] {
        let mut p = parse_uninstall_string(raw);
        let once = append_silent_args(&p);
        p.args = once.clone();
        let twice = append_silent_args(&p);
        assert_eq!(twice, once);
    }
}
