//! Uninstalling applications: commands, residue and the decisions around them.
pub mod registry;
pub mod residue;
pub mod runner;
pub mod uwp;

use crate::models::{opt_view, AppEntry};
use crate::text::{after_last, after_last_str, concat3, concat_str, decimal, i32_text, same_str, signed_decimal, u64_text};
use residue::{item_views, registry_self_item, ResidueItem, ResidueItemView};
use runner::{parse_spec, parse_uninstall_string, ParsedCommand, UninstallOutcome};
use vstd::prelude::*;

verus! {

/// All applications: those from the registry, then the packaged ones.
pub fn enumerate_all(registry_apps: Vec<AppEntry>, uwp_apps: Vec<AppEntry>) -> (r: Vec<AppEntry>)
    ensures
        r@ == registry_apps@ + uwp_apps@,
{
    let mut apps = registry_apps;
    let mut more = uwp_apps;
    apps.append(&mut more);
    apps
}

/// The entry's registry key is `key`.
pub open spec fn has_registry_key(e: AppEntry, key: Seq<char>) -> bool {
    opt_view(e.registry_key) == Some(key)
}

/// The index of the first entry whose registry key is `key`.
pub open spec fn first_with_key(apps: Seq<AppEntry>, key: Seq<char>, i: int) -> bool {
    &&& 0 <= i < apps.len()
    &&& has_registry_key(apps[i], key)
    &&& forall|j: int| 0 <= j < i ==> !has_registry_key(#[trigger] apps[j], key)
}

/// The first application whose registry key path is `key`.
pub fn find_app_by_key(apps: Vec<AppEntry>, key: &str) -> (r: Option<AppEntry>)
    ensures
        match r {
            Some(a) => exists|i: int| first_with_key(apps@, key@, i) && a == apps@[i],
            None => forall|i: int| 0 <= i < apps.len() ==> !has_registry_key(#[trigger] apps@[i], key@),
        },
{
    let ghost orig = apps@;
    proof {
        assert(orig == apps@);
    }
    let mut list = apps;
    let mut i: usize = 0;
    while i < list.len()
        invariant
            i <= list.len(),
            list@ == orig,
            orig == apps@,
            forall|j: int| 0 <= j < i ==> !has_registry_key(#[trigger] list@[j], key@),
        decreases list.len() - i,
    {
        let hit = match &list[i].registry_key {
            Some(k) => same_str(k.as_str(), key),
            None => false,
        };
        if hit {
            let a = list.remove(i);
            assert(a == orig[i as int]);
            assert(first_with_key(orig, key@, i as int));
            assert(exists|j: int| first_with_key(orig, key@, j) && a == orig[j]);
            return Some(a);
        }
        i += 1;
    }
    None
}

/// The application whose registry key path is `key`, or the message that it was not found.
pub fn lookup_app(apps: Vec<AppEntry>, key: &str) -> (r: Result<AppEntry, String>)
    ensures
        match r {
            Ok(a) => exists|i: int| first_with_key(apps@, key@, i) && a == apps@[i],
            Err(m) => m@ == "未找到应用: "@ + key@ && forall|i: int|
                0 <= i < apps.len() ==> !has_registry_key(#[trigger] apps@[i], key@),
        },
{
    match find_app_by_key(apps, key) {
        Some(a) => Ok(a),
        None => Err(concat_str("未找到应用: ", key)),
    }
}

/// The command that uninstalls the application: its uninstall command, else
/// its fallback command.
pub open spec fn uninstall_command_spec(app: AppEntry) -> Result<Seq<char>, Seq<char>> {
    match (opt_view(app.uninstall_string), opt_view(app.fallback_uninstall_string)) {
        (Some(u), _) => Ok(u),
        (None, Some(f)) => Ok(f),
        (None, None) => Err("该应用没有可用的卸载命令"@),
    }
}

/// The view of a result holding texts.
pub open spec fn result_view(r: Result<String, String>) -> Result<Seq<char>, Seq<char>> {
    match r {
        Ok(s) => Ok(s@),
        Err(e) => Err(e@),
    }
}

/// The command that uninstalls the application (see `uninstall_command_spec`).
pub fn select_uninstall_command(app: &AppEntry) -> (r: Result<String, String>)
    ensures
        result_view(r) == uninstall_command_spec(*app),
{
    match &app.uninstall_string {
        Some(u) => Ok(u.clone()),
        None => match &app.fallback_uninstall_string {
            Some(f) => Ok(f.clone()),
            None => Err(String::from_str("该应用没有可用的卸载命令")),
        },
    }
}

/// How an uninstall is to be run.
pub struct UninstallPlan {
    /// The parsed command.
    pub parsed: ParsedCommand,
    /// Whether to run it silently.
    pub silent: bool,
    /// How long to wait for it, in seconds.
    pub timeout_secs: u64,
}

/// Silent unless asked otherwise.
pub open spec fn silent_choice(silent: Option<bool>) -> bool {
    match silent {
        Some(s) => s,
        None => true,
    }
}

/// The timeout asked for, else 60 seconds for a silent run and 180 otherwise.
pub open spec fn timeout_choice(silent: bool, timeout_secs: Option<u64>) -> u64 {
    match timeout_secs {
        Some(t) => t,
        None => if silent {
            60
        } else {
            180
        },
    }
}

/// Plans the uninstall of an application: its command parsed, silent by
/// default, with the default timeouts; an error when it has no command or the
/// command names no program.
pub fn plan_uninstall(app: &AppEntry, silent: Option<bool>, timeout_secs: Option<u64>) -> (r: Result<
    UninstallPlan,
    String,
>)
    ensures
        match uninstall_command_spec(*app) {
            Err(e) => r matches Err(m) && m@ == e,
            Ok(c) => if parse_spec(c).program.len() == 0 {
                r matches Err(m) && m@ == "无法解析卸载命令: "@ + c
            } else {
                r matches Ok(p) && p.parsed@ == parse_spec(c) && p.silent == silent_choice(silent)
                    && p.timeout_secs == timeout_choice(silent_choice(silent), timeout_secs)
            },
        },
{
    let cmd = match select_uninstall_command(app) {
        Ok(c) => c,
        Err(e) => return Err(e),
    };
    let parsed = parse_uninstall_string(cmd.as_str());
    if parsed.program.as_str().is_empty() {
        return Err(concat_str("无法解析卸载命令: ", cmd.as_str()));
    }
    let silent = match silent {
        Some(s) => s,
        None => true,
    };
    let timeout = match timeout_secs {
        Some(t) => t,
        None => if silent {
            60
        } else {
            180
        },
    };
    Ok(UninstallPlan { parsed, silent, timeout_secs: timeout })
}

/// The timeout to wait with after the grace period of a silent run: an
/// uninstaller that already exited (handing over to a child process) is given
/// only 5 seconds more.
pub fn effective_timeout(silent: bool, exited_in_grace: bool, timeout_secs: u64) -> (r: u64)
    ensures
        r == if silent && exited_in_grace {
            5
        } else {
            timeout_secs
        },
{
    if silent && exited_in_grace {
        5
    } else {
        timeout_secs
    }
}

/// The value of an `UninstallOutcome`.
pub struct UninstallOutcomeView {
    pub status: Seq<char>,
    pub pid: Option<u32>,
    pub exit_code: Option<i32>,
    pub message: Seq<char>,
    pub waited_secs: u64,
}

impl View for UninstallOutcome {
    type V = UninstallOutcomeView;

    open spec fn view(&self) -> UninstallOutcomeView {
        UninstallOutcomeView {
            status: self.status@,
            pid: self.pid,
            exit_code: self.exit_code,
            message: self.message@,
            waited_secs: self.waited_secs,
        }
    }
}

/// The outcome of an uninstall run that waited `waited_secs` seconds with a
/// timeout of `timeout_secs` seconds.
pub open spec fn outcome_spec(
    pid: u32,
    timed_out: bool,
    exit_code: Option<i32>,
    timeout_secs: u64,
    waited_secs: u64,
) -> UninstallOutcomeView {
    if timed_out {
        UninstallOutcomeView {
            status: "timed_out"@,
            pid: Some(pid),
            exit_code: None,
            message: "卸载器运行超过 "@ + decimal(timeout_secs as nat) + " 秒仍未结束，可能弹出了交互窗口或已挂起"@,
            waited_secs,
        }
    } else {
        match exit_code {
            Some(c) => if c == 0 {
                UninstallOutcomeView {
                    status: "finished"@,
                    pid: Some(pid),
                    exit_code: Some(0),
                    message: "卸载命令已执行完成"@,
                    waited_secs,
                }
            } else {
                UninstallOutcomeView {
                    status: "failed"@,
                    pid: Some(pid),
                    exit_code: Some(c),
                    message: "卸载器退出，退出码 "@ + signed_decimal(c as int),
                    waited_secs,
                }
            },
            None => UninstallOutcomeView {
                status: "finished"@,
                pid: Some(pid),
                exit_code: None,
                message: "卸载命令已执行完成（无退出码）"@,
                waited_secs,
            },
        }
    }
}

/// The outcome of an uninstall run: timed out (the message names the
/// timeout), finished (exit code 0 or none), or failed (any other exit code),
/// with the seconds actually waited.
pub fn uninstall_outcome(
    pid: u32,
    timed_out: bool,
    exit_code: Option<i32>,
    timeout_secs: u64,
    waited_secs: u64,
) -> (r: UninstallOutcome)
    ensures
        r@ == outcome_spec(pid, timed_out, exit_code, timeout_secs, waited_secs),
{
    if timed_out {
        let secs = u64_text(timeout_secs);
        return UninstallOutcome {
            status: String::from_str("timed_out"),
            pid: Some(pid),
            exit_code: None,
            message: concat3("卸载器运行超过 ", secs.as_str(), " 秒仍未结束，可能弹出了交互窗口或已挂起"),
            waited_secs,
        };
    }
    match exit_code {
        Some(c) => {
            if c == 0 {
                UninstallOutcome {
                    status: String::from_str("finished"),
                    pid: Some(pid),
                    exit_code: Some(0),
                    message: String::from_str("卸载命令已执行完成"),
                    waited_secs,
                }
            } else {
                let code = i32_text(c);
                UninstallOutcome {
                    status: String::from_str("failed"),
                    pid: Some(pid),
                    exit_code: Some(c),
                    message: concat_str("卸载器退出，退出码 ", code.as_str()),
                    waited_secs,
                }
            }
        },
        None => UninstallOutcome {
            status: String::from_str("finished"),
            pid: Some(pid),
            exit_code: None,
            message: String::from_str("卸载命令已执行完成（无退出码）"),
            waited_secs,
        },
    }
}

/// The items a forced uninstall removes: the application's uninstall registry
/// key (not safe), and, when asked, its install location (safe).
pub open spec fn force_items_spec(app: AppEntry, remove_files: bool) -> Seq<ResidueItemView> {
    let reg = match opt_view(app.registry_key) {
        Some(k) => if k.len() > 0 {
            seq![
                ResidueItemView {
                    kind: "registry"@,
                    path: k,
                    name: after_last(k, '\\'),
                    size_bytes: None,
                    safe: false,
                },
            ]
        } else {
            Seq::empty()
        },
        None => Seq::empty(),
    };
    let files = if remove_files {
        match opt_view(app.install_location) {
            Some(l) => if l.len() > 0 {
                seq![
                    ResidueItemView {
                        kind: "file"@,
                        path: l,
                        name: after_last(l, '\\'),
                        size_bytes: None,
                        safe: true,
                    },
                ]
            } else {
                Seq::empty()
            },
            None => Seq::empty(),
        }
    } else {
        Seq::empty()
    };
    reg + files
}

/// The items a forced uninstall removes (see `force_items_spec`).
pub fn force_uninstall_items(app: &AppEntry, remove_files: bool) -> (r: Vec<ResidueItem>)
    ensures
        item_views(r@) == force_items_spec(*app, remove_files),
{
    let mut items: Vec<ResidueItem> = Vec::new();
    match registry_self_item(app) {
        Some(i) => items.push(i),
        None => {},
    }
    let ghost reg = item_views(items@);
    if remove_files {
        match &app.install_location {
            Some(il) => {
                if !il.as_str().is_empty() {
                    items.push(
                        ResidueItem {
                            kind: String::from_str("file"),
                            path: il.clone(),
                            name: after_last_str(il.as_str(), '\\'),
                            size_bytes: None,
                            safe: true,
                        },
                    );
                    assert(item_views(items@) == reg.push(items@.last()@));
                }
            },
            None => {},
        }
    }
    assert(item_views(items@) =~= force_items_spec(*app, remove_files));
    items
}


/// A forced uninstall removes at most the registry key and the install folder;
/// the registry key is never considered safe, the folder always is.
pub proof fn lemma_force_items_safety(app: AppEntry, remove_files: bool)
    ensures
        force_items_spec(app, remove_files).len() <= 2,
        forall|i: int|
            0 <= i < force_items_spec(app, remove_files).len() ==> (#[trigger] force_items_spec(
                app,
                remove_files,
            )[i]).safe == (force_items_spec(app, remove_files)[i].kind == "file"@),
        !remove_files ==> forall|i: int|
            0 <= i < force_items_spec(app, remove_files).len() ==> (#[trigger] force_items_spec(
                app,
                remove_files,
            )[i]).kind == "registry"@,
{
    reveal_strlit("file");
    reveal_strlit("registry");
    assert("file"@ != "registry"@) by {
        assert("file"@[0] != "registry"@[0]);
    }
    let r = force_items_spec(app, remove_files);
    assert forall|i: int| 0 <= i < r.len() implies (#[trigger] r[i]).safe == (r[i].kind == "file"@) by {
        if r[i].kind == "registry"@ {
        }
    }
}

/// How an uninstall run is reported: a run that timed out is `timed_out`
/// with no exit code, and its message names the timeout; a run that ended
/// with a non-zero exit code `c` is `failed`, keeps `c`, and says so; a run
/// that ended with exit code 0 or none is `finished` and keeps that code.
/// Every outcome keeps the process id and the seconds waited.
pub proof fn lemma_outcome_status(
    pid: u32,
    timed_out: bool,
    exit_code: Option<i32>,
    timeout_secs: u64,
    waited_secs: u64,
)
    ensures
        outcome_spec(pid, timed_out, exit_code, timeout_secs, waited_secs).pid == Some(pid),
        outcome_spec(pid, timed_out, exit_code, timeout_secs, waited_secs).waited_secs == waited_secs,
        timed_out ==> outcome_spec(pid, timed_out, exit_code, timeout_secs, waited_secs).status
            == "timed_out"@ && outcome_spec(pid, timed_out, exit_code, timeout_secs, waited_secs).exit_code
            is None && outcome_spec(pid, timed_out, exit_code, timeout_secs, waited_secs).message
            == "卸载器运行超过 "@ + decimal(timeout_secs as nat) + " 秒仍未结束，可能弹出了交互窗口或已挂起"@,
        forall|c: i32|
            !timed_out && exit_code == Some(c) && c != 0 ==> {
                let o = outcome_spec(pid, timed_out, exit_code, timeout_secs, waited_secs);
                &&& o.status == "failed"@
                &&& o.exit_code == Some(c)
                &&& o.message == "卸载器退出，退出码 "@ + signed_decimal(c as int)
            },
        !timed_out && (exit_code == Some(0i32) || exit_code is None) ==> {
            let o = outcome_spec(pid, timed_out, exit_code, timeout_secs, waited_secs);
            &&& o.status == "finished"@
            &&& o.exit_code == exit_code
        },
{
}

} // verus!
