//! The installed-software list read directly from the registry's uninstall keys.
use crate::keyed::{stable_sort_by_key, stable_sorted_from};
use crate::models::opt_view;
use crate::text::{
    chars_of, concat3, lowercase_of, matches_at, push_char, same_str, to_lowercase,
    trim, trim_str,
};
use vstd::prelude::*;

verus! {

/// One installed program.
#[derive(Debug, Clone)]
pub struct InstalledApp {
    /// Display name.
    pub name: String,
    /// Version.
    pub version: Option<String>,
    /// Publisher.
    pub publisher: Option<String>,
    /// Install location.
    pub install_location: Option<String>,
    /// Uninstall command.
    pub uninstall_string: Option<String>,
    /// Quiet uninstall command.
    pub quiet_uninstall_string: Option<String>,
    /// Estimated size in MB.
    pub estimated_size_mb: Option<u64>,
    /// Icon path.
    pub icon_path: Option<String>,
    /// Full registry key path.
    pub registry_path: String,
    /// Installed for the whole machine (`HKLM`).
    pub system_wide: bool,
}

/// The value of an `InstalledApp`.
pub struct InstalledAppView {
    pub name: Seq<char>,
    pub version: Option<Seq<char>>,
    pub publisher: Option<Seq<char>>,
    pub install_location: Option<Seq<char>>,
    pub uninstall_string: Option<Seq<char>>,
    pub quiet_uninstall_string: Option<Seq<char>>,
    pub estimated_size_mb: Option<u64>,
    pub icon_path: Option<Seq<char>>,
    pub registry_path: Seq<char>,
    pub system_wide: bool,
}

impl View for InstalledApp {
    type V = InstalledAppView;

    open spec fn view(&self) -> InstalledAppView {
        InstalledAppView {
            name: self.name@,
            version: opt_view(self.version),
            publisher: opt_view(self.publisher),
            install_location: opt_view(self.install_location),
            uninstall_string: opt_view(self.uninstall_string),
            quiet_uninstall_string: opt_view(self.quiet_uninstall_string),
            estimated_size_mb: self.estimated_size_mb,
            icon_path: opt_view(self.icon_path),
            registry_path: self.registry_path@,
            system_wide: self.system_wide,
        }
    }
}

/// What `str::replace(pat, rep)` returns for a non-empty pattern: the
/// occurrences of `pat`, found left to right without overlap, replaced by `rep`.
pub open spec fn replace_all(s: Seq<char>, pat: Seq<char>, rep: Seq<char>) -> Seq<char>
    decreases s.len(),
{
    if pat.len() == 0 || s.len() < pat.len() {
        s
    } else if s.take(pat.len() as int) == pat {
        rep + replace_all(s.skip(pat.len() as int), pat, rep)
    } else {
        seq![s[0]] + replace_all(s.drop_first(), pat, rep)
    }
}

/// The environment variable reference `%name%`.
pub open spec fn env_reference(name: Seq<char>) -> Seq<char> {
    seq!['%'] + name + seq!['%']
}

/// `s` with each `%name%` replaced by its value, variable by variable in order.
pub open spec fn expand_env_spec(s: Seq<char>, vars: Seq<(Seq<char>, Seq<char>)>) -> Seq<char>
    decreases vars.len(),
{
    if vars.len() == 0 {
        s
    } else {
        replace_all(expand_env_spec(s, vars.drop_last()), env_reference(vars.last().0), vars.last().1)
    }
}

/// The views of a list of variables.
pub open spec fn var_views(vars: Seq<(String, String)>) -> Seq<(Seq<char>, Seq<char>)> {
    vars.map_values(|p: (String, String)| (p.0@, p.1@))
}

/// `s.replace(pat, rep)` for a non-empty pattern.
pub fn replace_str(s: &str, pat: &str, rep: &str) -> (r: String)
    requires
        pat@.len() > 0,
    ensures
        r@ == replace_all(s@, pat@, rep@),
{
    let sv = chars_of(s);
    let pv = chars_of(pat);
    let mut out = String::new();
    let mut i: usize = 0;
    assert(sv@.skip(0) == sv@);
    while i < sv.len()
        invariant
            i <= sv.len(),
            pv@.len() > 0,
            out@ + replace_all(sv@.skip(i as int), pv@, rep@) == replace_all(sv@, pv@, rep@),
        decreases sv.len() - i,
    {
        let ghost t = sv@.skip(i as int);
        if matches_at(&sv, &pv, i) {
            assert(t.take(pv@.len() as int) == sv@.subrange(i as int, i + pv@.len()));
            assert(t.skip(pv@.len() as int) == sv@.skip(i + pv@.len()));
            out.append(rep);
            i = i + pv.len();
        } else {
            assert(t.len() >= pv@.len() ==> t.take(pv@.len() as int) != pv@) by {
                if t.len() >= pv@.len() && t.take(pv@.len() as int) == pv@ {
                    assert(t.take(pv@.len() as int) == sv@.subrange(i as int, i + pv@.len()));
                }
            }
            proof {
                assert(t.drop_first() == sv@.skip(i + 1));
                assert(t[0] == sv@[i as int]);
                if t.len() < pv@.len() {
                    assert(replace_all(t, pv@, rep@) == t);
                    assert(t == seq![t[0]] + t.drop_first());
                    assert(replace_all(t.drop_first(), pv@, rep@) == t.drop_first());
                }
            }
            push_char(&mut out, sv[i]);
            i += 1;
        }
    }
    assert(sv@.skip(i as int).len() == 0);
    out
}

/// `s` with each `%name%` replaced by the variable's value, the variables
/// taken in order.
pub fn expand_env(s: &str, vars: &Vec<(String, String)>) -> (r: String)
    ensures
        r@ == expand_env_spec(s@, var_views(vars@)),
{
    let ghost vv = var_views(vars@);
    let mut result = String::from_str(s);
    let mut i: usize = 0;
    while i < vars.len()
        invariant
            i <= vars.len(),
            vv == var_views(vars@),
            result@ == expand_env_spec(s@, vv.take(i as int)),
        decreases vars.len() - i,
    {
        let (k, v) = &vars[i];
        let pattern = concat3("%", k.as_str(), "%");
        proof {
            reveal_strlit("%");
            assert("%"@ == seq!['%']);
            assert(pattern@ == env_reference(k@));
            assert(vv.take(i + 1).drop_last() == vv.take(i as int));
            assert(vv.take(i + 1).last() == (k@, v@));
        }
        result = replace_str(result.as_str(), pattern.as_str(), v.as_str());
        i += 1;
    }
    assert(vv.take(vars.len() as int) == vv);
    result
}

/// The values read from one uninstall subkey (`None` where absent or not of the expected type).
pub struct InstalledValues {
    pub system_component: Option<u32>,
    pub release_type: Option<String>,
    pub display_name: Option<String>,
    pub display_version: Option<String>,
    pub publisher: Option<String>,
    pub install_location: Option<String>,
    pub uninstall_string: Option<String>,
    pub quiet_uninstall_string: Option<String>,
    pub estimated_size: Option<u32>,
    pub display_icon: Option<String>,
}

/// A path value with environment references expanded.
pub open spec fn expanded(o: Option<Seq<char>>, vars: Seq<(Seq<char>, Seq<char>)>) -> Option<Seq<char>> {
    match o {
        Some(p) => Some(expand_env_spec(p, vars)),
        None => None,
    }
}

/// The program recorded for an uninstall subkey: system components, updates
/// (any release type but `Hotfix`) and entries without a non-blank display name
/// are skipped; paths have their environment references expanded, the size is
/// converted from KB to whole MB, and the registry path is `parent\subkey`.
pub open spec fn installed_app_spec(
    v: InstalledValues,
    subkey_name: Seq<char>,
    parent_path: Seq<char>,
    system_wide: bool,
    vars: Seq<(Seq<char>, Seq<char>)>,
) -> Option<InstalledAppView> {
    if v.system_component == Some(1u32) {
        None
    } else if (match opt_view(v.release_type) {
        Some(rt) => rt != "Hotfix"@ && rt.len() > 0,
        None => false,
    }) {
        None
    } else {
        match opt_view(v.display_name) {
            None => None,
            Some(name) => if trim(name).len() == 0 {
                None
            } else {
                Some(
                    InstalledAppView {
                        name,
                        version: opt_view(v.display_version),
                        publisher: opt_view(v.publisher),
                        install_location: expanded(opt_view(v.install_location), vars),
                        uninstall_string: expanded(opt_view(v.uninstall_string), vars),
                        quiet_uninstall_string: expanded(opt_view(v.quiet_uninstall_string), vars),
                        estimated_size_mb: match v.estimated_size {
                            Some(kb) => Some((kb / 1024) as u64),
                            None => None,
                        },
                        icon_path: expanded(opt_view(v.display_icon), vars),
                        registry_path: parent_path + "\\"@ + subkey_name,
                        system_wide,
                    },
                )
            },
        }
    }
}

fn expand_opt(o: &Option<String>, vars: &Vec<(String, String)>) -> (r: Option<String>)
    ensures
        opt_view(r) == expanded(opt_view(*o), var_views(vars@)),
{
    match o {
        Some(p) => Some(expand_env(p.as_str(), vars)),
        None => None,
    }
}

/// The program recorded for an uninstall subkey (see `installed_app_spec`).
pub fn installed_app(
    values: &InstalledValues,
    subkey_name: &str,
    parent_path: &str,
    system_wide: bool,
    vars: &Vec<(String, String)>,
) -> (r: Option<InstalledApp>)
    ensures
        match r {
            Some(a) => installed_app_spec(*values, subkey_name@, parent_path@, system_wide, var_views(vars@))
                == Some(a@),
            None => installed_app_spec(*values, subkey_name@, parent_path@, system_wide, var_views(vars@))
                is None,
        },
{
    if values.system_component == Some(1u32) {
        return None;
    }
    match &values.release_type {
        Some(rt) => {
            if !same_str(rt.as_str(), "Hotfix") && !rt.as_str().is_empty() {
                return None;
            }
        },
        None => {},
    }
    let name = match &values.display_name {
        Some(n) => n.clone(),
        None => return None,
    };
    let t = trim_str(name.as_str());
    if t.as_str().is_empty() {
        return None;
    }
    Some(
        InstalledApp {
            name,
            version: values.display_version.clone(),
            publisher: values.publisher.clone(),
            install_location: expand_opt(&values.install_location, vars),
            uninstall_string: expand_opt(&values.uninstall_string, vars),
            quiet_uninstall_string: expand_opt(&values.quiet_uninstall_string, vars),
            estimated_size_mb: match values.estimated_size {
                Some(kb) => Some((kb / 1024) as u64),
                None => None,
            },
            icon_path: expand_opt(&values.display_icon, vars),
            registry_path: concat3(parent_path, "\\", subkey_name),
            system_wide,
        },
    )
}

/// The key programs are listed by: the lowercased name.
pub open spec fn installed_sort_key() -> spec_fn(InstalledApp) -> Seq<char> {
    |a: InstalledApp| lowercase_of(a.name@)
}

/// Sorts programs by lowercased name, keeping the order of programs with the same name.
pub fn sort_installed_apps(apps: Vec<InstalledApp>) -> (r: Vec<InstalledApp>)
    ensures
        stable_sorted_from(r@, apps@, installed_sort_key()),
{
    let ghost sk = installed_sort_key();
    let mut keys: Vec<Vec<char>> = Vec::new();
    let mut i: usize = 0;
    while i < apps.len()
        invariant
            i <= apps.len(),
            keys.len() == i,
            sk == installed_sort_key(),
            forall|j: int| 0 <= j < i ==> (#[trigger] keys@[j])@ == sk(apps@[j]),
        decreases apps.len() - i,
    {
        let l = to_lowercase(apps[i].name.as_str());
        keys.push(chars_of(l.as_str()));
        i += 1;
    }
    stable_sort_by_key(apps, keys, Ghost(sk))
}


proof fn lemma_replace_absent(s: Seq<char>, pat: Seq<char>, rep: Seq<char>)
    requires
        pat.len() > 0,
        pat[0] == '%',
        forall|i: int| 0 <= i < s.len() ==> #[trigger] s[i] != '%',
    ensures
        replace_all(s, pat, rep) == s,
    decreases s.len(),
{
    if s.len() >= pat.len() {
        assert(s.take(pat.len() as int)[0] == s[0]);
        let t = s.drop_first();
        assert forall|i: int| 0 <= i < t.len() implies #[trigger] t[i] != '%' by {
            assert(t[i] == s[i + 1]);
        }
        lemma_replace_absent(t, pat, rep);
        assert(s == seq![s[0]] + t);
    }
}

/// A value without `%` is left as it is, whatever the variables.
pub proof fn lemma_expand_without_references(s: Seq<char>, vars: Seq<(Seq<char>, Seq<char>)>)
    requires
        forall|i: int| 0 <= i < s.len() ==> #[trigger] s[i] != '%',
    ensures
        expand_env_spec(s, vars) == s,
    decreases vars.len(),
{
    if vars.len() > 0 {
        lemma_expand_without_references(s, vars.drop_last());
        lemma_replace_absent(s, env_reference(vars.last().0), vars.last().1);
    }
}

} // verus!
