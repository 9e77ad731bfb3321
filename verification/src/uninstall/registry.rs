//! Installed applications from the registry's uninstall keys.
use crate::keyed::{
    has_key, has_preferred, index_map, keep_preferred, keep_preferred_by_key, lemma_keep_preferred_distinct,
    lemma_keep_preferred_keys, lemma_keep_preferred_prefers, lex_le, sorted_by, stable_sort_by_key,
    stable_sorted_from,
};
use crate::models::{opt_view, AppEntry, AppEntryView};
use crate::text::{
    byte_len, chars_of, concat3, contains_seq, contains_str, lowercase_of, string_of, sub_chars,
    to_lowercase, trim, trim_str, utf8_len, is_ascii_text, lemma_ascii_byte_prefix, lemma_trim_unpadded,
};
use vstd::prelude::*;

verus! {

/// The values read from one uninstall subkey (`None` where a value is absent
/// or not of the expected type).
pub struct RegistryValues {
    pub display_name: Option<String>,
    pub quiet_uninstall_string: Option<String>,
    pub uninstall_string: Option<String>,
    pub publisher: Option<String>,
    pub display_version: Option<String>,
    pub install_location: Option<String>,
    pub display_icon: Option<String>,
    pub install_date: Option<String>,
    pub system_component: Option<u32>,
    pub estimated_size: Option<u32>,
}

/// A text value that is present and not blank.
pub open spec fn non_blank(o: Option<Seq<char>>) -> Option<Seq<char>> {
    match o {
        Some(v) => if trim(v).len() > 0 {
            Some(v)
        } else {
            None
        },
        None => None,
    }
}

/// All characters are ASCII digits.
pub open spec fn all_digits(s: Seq<char>) -> bool {
    forall|i: int| 0 <= i < s.len() ==> '0' <= #[trigger] s[i] <= '9'
}

/// An install date `YYYYMMDD` (eight bytes, all digits) as `YYYY-MM-DD`.
pub open spec fn install_date_of(d: Option<Seq<char>>) -> Option<Seq<char>> {
    match non_blank(d) {
        Some(d) => if utf8_len(d) == 8 && all_digits(d) {
            Some(d.subrange(0, 4) + "-"@ + d.subrange(4, 6) + "-"@ + d.subrange(6, 8))
        } else {
            None
        },
        None => None,
    }
}

/// The uninstall command: the quiet one when present, else the plain one,
/// dropped when it contains `none` (in any case).
pub open spec fn chosen_uninstall(quiet: Option<Seq<char>>, plain: Option<Seq<char>>) -> Option<
    Seq<char>,
> {
    let c = match non_blank(quiet) {
        Some(q) => Some(q),
        None => non_blank(plain),
    };
    match c {
        Some(s) => if contains_seq(lowercase_of(s), "none"@) {
            None
        } else {
            Some(s)
        },
        None => None,
    }
}

/// The entry for an uninstall subkey named `sub_name`, or none when it has no
/// display name.
pub open spec fn read_entry_spec(v: RegistryValues, sub_name: Seq<char>, is_64: bool) -> Option<
    AppEntryView,
> {
    match non_blank(opt_view(v.display_name)) {
        None => None,
        Some(name) => {
            let un = chosen_uninstall(opt_view(v.quiet_uninstall_string), opt_view(v.uninstall_string));
            let fb = non_blank(opt_view(v.uninstall_string));
            Some(
                AppEntryView {
                    name,
                    publisher: non_blank(opt_view(v.publisher)),
                    version: non_blank(opt_view(v.display_version)),
                    size_mb: match v.estimated_size {
                        Some(kb) => Some(((kb + 1023) / 1024) as u64),
                        None => None,
                    },
                    install_date: install_date_of(opt_view(v.install_date)),
                    install_location: non_blank(opt_view(v.install_location)),
                    uninstall_string: un,
                    fallback_uninstall_string: fb,
                    display_icon: non_blank(opt_view(v.display_icon)),
                    registry_key: Some(sub_name),
                    source: "registry"@,
                    is_system_component: match v.system_component {
                        Some(x) => x == 1,
                        None => false,
                    },
                    uninstaller_missing: un is None && fb is None,
                    is_64bit: Some(is_64),
                    cert_status: None,
                },
            )
        },
    }
}

/// A copy of the value when it is present and not blank.
pub fn non_blank_value(o: &Option<String>) -> (r: Option<String>)
    ensures
        opt_view(r) == non_blank(opt_view(*o)),
{
    match o {
        Some(v) => {
            let t = trim_str(v.as_str());
            if t.as_str().is_empty() {
                None
            } else {
                Some(v.clone())
            }
        },
        None => None,
    }
}

fn digits_only(v: &Vec<char>) -> (r: bool)
    ensures
        r == all_digits(v@),
{
    let mut i: usize = 0;
    while i < v.len()
        invariant
            i <= v.len(),
            forall|j: int| 0 <= j < i ==> '0' <= #[trigger] v@[j] <= '9',
        decreases v.len() - i,
    {
        if v[i] < '0' || v[i] > '9' {
            return false;
        }
        i += 1;
    }
    true
}

fn date_text(d: &Option<String>) -> (r: Option<String>)
    ensures
        opt_view(r) == install_date_of(opt_view(*d)),
{
    let d = match non_blank_value(d) {
        Some(d) => d,
        None => return None,
    };
    let v = chars_of(d.as_str());
    if !digits_only(&v) {
        return None;
    }
    let nbytes: u128 = byte_len(&v);
    proof {
        assert forall|j: int| 0 <= j < v@.len() implies (#[trigger] v@[j] as u32) < 0x80 by {
            assert('0' <= v@[j] <= '9');
        }
        crate::text::lemma_ascii_len(v@);
    }
    if nbytes != 8 {
        return None;
    }
    let y = string_of(sub_chars(&v, 0, 4).as_slice());
    let m = string_of(sub_chars(&v, 4, 6).as_slice());
    let dd = string_of(sub_chars(&v, 6, 8).as_slice());
    let mut r = concat3(y.as_str(), "-", m.as_str());
    r.append("-");
    r.append(dd.as_str());
    Some(r)
}

/// Builds the entry for one uninstall subkey: blank values count as absent, the
/// quiet uninstall command is preferred (and dropped when it says `none`), the
/// size is converted from KB to MB rounding up, and the install date is
/// reformatted; none when there is no display name. The registry key holds
/// the subkey's name; `read_entry_at` records the complete path.
pub fn read_entry(values: &RegistryValues, sub_name: &str, is_64: bool) -> (r: Option<AppEntry>)
    ensures
        match r {
            Some(e) => read_entry_spec(*values, sub_name@, is_64) == Some(e@),
            None => read_entry_spec(*values, sub_name@, is_64) is None,
        },
{
    let name = match non_blank_value(&values.display_name) {
        Some(n) => n,
        None => return None,
    };
    let quiet = non_blank_value(&values.quiet_uninstall_string);
    let plain = non_blank_value(&values.uninstall_string);
    let candidate = match quiet {
        Some(q) => Some(q),
        None => plain.clone(),
    };
    let uninstall_string = match candidate {
        Some(s) => {
            let l = to_lowercase(s.as_str());
            if contains_str(l.as_str(), "none") {
                None
            } else {
                Some(s)
            }
        },
        None => None,
    };
    let fallback = plain;
    let system_component = match values.system_component {
        Some(x) => x == 1,
        None => false,
    };
    let uninstaller_missing = uninstall_string.is_none() && fallback.is_none();
    let size_mb = match values.estimated_size {
        Some(kb) => Some((kb as u64 + 1023) / 1024),
        None => None,
    };
    Some(
        AppEntry {
            name,
            publisher: non_blank_value(&values.publisher),
            version: non_blank_value(&values.display_version),
            size_mb,
            install_date: date_text(&values.install_date),
            install_location: non_blank_value(&values.install_location),
            uninstall_string,
            fallback_uninstall_string: fallback,
            display_icon: non_blank_value(&values.display_icon),
            registry_key: Some(String::from_str(sub_name)),
            source: String::from_str("registry"),
            is_system_component: system_component,
            uninstaller_missing,
            is_64bit: Some(is_64),
            cert_status: None,
        },
    )
}

/// The hive's short name: `HKLM` for the machine's keys, `HKCU` for the user's.
pub open spec fn hive_name(is_machine: bool) -> Seq<char> {
    if is_machine {
        "HKLM"@
    } else {
        "HKCU"@
    }
}

/// The complete path of the subkey `sub_name` of the uninstall key at
/// `uninstall_path`: hive, uninstall path and subkey name, joined by `\`.
pub open spec fn full_key_path(is_machine: bool, uninstall_path: Seq<char>, sub_name: Seq<char>) -> Seq<char> {
    hive_name(is_machine) + "\\"@ + uninstall_path + "\\"@ + sub_name
}

/// The complete key path recorded for a subkey, such as
/// `HKLM\Software\Microsoft\Windows\CurrentVersion\Uninstall\App`.
pub fn registry_key_path(is_machine: bool, uninstall_path: &str, sub_name: &str) -> (r: String)
    ensures
        r@ == full_key_path(is_machine, uninstall_path@, sub_name@),
{
    let mut r = if is_machine {
        concat3("HKLM", "\\", uninstall_path)
    } else {
        concat3("HKCU", "\\", uninstall_path)
    };
    r.append("\\");
    r.append(sub_name);
    r
}

/// `read_entry` for the subkey `sub_name` of the uninstall key at
/// `uninstall_path`, with the registry key set to the subkey's complete path.
pub fn read_entry_at(
    values: &RegistryValues,
    uninstall_path: &str,
    sub_name: &str,
    is_64: bool,
    is_machine: bool,
) -> (r: Option<AppEntry>)
    ensures
        match r {
            Some(e) => read_entry_spec(*values, sub_name@, is_64) matches Some(v) && e@ == (AppEntryView {
                registry_key: Some(full_key_path(is_machine, uninstall_path@, sub_name@)),
                ..v
            }),
            None => read_entry_spec(*values, sub_name@, is_64) is None,
        },
{
    match read_entry(values, sub_name, is_64) {
        Some(mut e) => {
            e.registry_key = Some(registry_key_path(is_machine, uninstall_path, sub_name));
            Some(e)
        },
        None => None,
    }
}

/// The key under which entries count as the same application: the lowercased
/// name and the lowercased publisher (empty when absent), joined by `|`.
pub open spec fn dedup_key(e: AppEntry) -> Seq<char> {
    lowercase_of(e.name@) + "|"@ + lowercase_of(
        match e.publisher {
            Some(p) => p@,
            None => Seq::empty(),
        },
    )
}

/// The key entries are listed by: the lowercased name.
pub open spec fn sort_key(e: AppEntry) -> Seq<char> {
    lowercase_of(e.name@)
}

pub open spec fn dedup_key_fn() -> spec_fn(AppEntry) -> Seq<char> {
    |e: AppEntry| dedup_key(e)
}

pub open spec fn sort_key_fn() -> spec_fn(AppEntry) -> Seq<char> {
    |e: AppEntry| sort_key(e)
}

/// The entry has an uninstall command (the quiet or plain one, or the fallback).
pub open spec fn has_command(e: AppEntry) -> bool {
    e.uninstall_string is Some || e.fallback_uninstall_string is Some
}

pub open spec fn has_command_fn() -> spec_fn(AppEntry) -> bool {
    |e: AppEntry| has_command(e)
}

/// The listed entries: one entry per application (by `dedup_key`), the first
/// one with an uninstall command where the application has one, else its
/// first entry; stably sorted by lowercased name.
pub open spec fn listed_entries(candidates: Seq<AppEntry>, listed: Seq<AppEntry>) -> bool {
    stable_sorted_from(listed, keep_preferred(candidates, dedup_key_fn(), has_command_fn()), sort_key_fn())
}

/// Keeps one entry per application (same lowercased name and publisher),
/// preferring entries with an uninstall command, and sorts the result by
/// lowercased name, keeping the order of entries with the same name.
pub fn dedup_sort_entries(entries: Vec<AppEntry>) -> (r: Vec<AppEntry>)
    ensures
        listed_entries(entries@, r@),
{
    let ghost dk = dedup_key_fn();
    let ghost hc = has_command_fn();
    let ghost sk = sort_key_fn();
    let mut keys: Vec<Vec<char>> = Vec::new();
    let mut prefs: Vec<bool> = Vec::new();
    let mut i: usize = 0;
    while i < entries.len()
        invariant
            i <= entries.len(),
            keys.len() == i,
            prefs.len() == i,
            dk == dedup_key_fn(),
            hc == has_command_fn(),
            forall|j: int| 0 <= j < i ==> (#[trigger] keys@[j])@ == dk(entries@[j]),
            forall|j: int| 0 <= j < i ==> #[trigger] prefs@[j] == hc(entries@[j]),
        decreases entries.len() - i,
    {
        let ln = to_lowercase(entries[i].name.as_str());
        let lp = match &entries[i].publisher {
            Some(p) => to_lowercase(p.as_str()),
            None => to_lowercase(""),
        };
        proof {
            if entries@[i as int].publisher is None {
                assert(""@ == Seq::<char>::empty()) by {
                    reveal_strlit("");
                }
            }
        }
        let k = concat3(ln.as_str(), "|", lp.as_str());
        keys.push(chars_of(k.as_str()));
        prefs.push(entries[i].has_uninstaller());
        i += 1;
    }
    let kept = keep_preferred_by_key(entries, keys, prefs, Ghost(dk), Ghost(hc));
    let mut sort_keys: Vec<Vec<char>> = Vec::new();
    let mut i: usize = 0;
    while i < kept.len()
        invariant
            i <= kept.len(),
            sort_keys.len() == i,
            sk == sort_key_fn(),
            forall|j: int| 0 <= j < i ==> (#[trigger] sort_keys@[j])@ == sk(kept@[j]),
        decreases kept.len() - i,
    {
        let ln = to_lowercase(kept[i].name.as_str());
        sort_keys.push(chars_of(ln.as_str()));
        i += 1;
    }
    stable_sort_by_key(kept, sort_keys, Ghost(sk))
}

/// An item of `listed` is an item of the de-duplicated sequence `d` it was sorted from.
proof fn lemma_listed_item(d: Seq<AppEntry>, listed: Seq<AppEntry>, i: int)
    requires
        stable_sorted_from(listed, d, sort_key_fn()),
        0 <= i < listed.len(),
    ensures
        d.contains(listed[i]),
{
    broadcast use vstd::seq_lib::group_to_multiset_ensures;

    assert(listed.contains(listed[i]));
    assert(listed.to_multiset().count(listed[i]) > 0);
    assert(d.to_multiset().count(listed[i]) > 0);
}

/// No application is listed twice: listed entries differ in lowercased name
/// or lowercased publisher.
pub proof fn lemma_listed_unique(candidates: Seq<AppEntry>, listed: Seq<AppEntry>)
    requires
        listed_entries(candidates, listed),
    ensures
        forall|i: int, j: int|
            0 <= i < j < listed.len() ==> dedup_key(#[trigger] listed[i]) != dedup_key(
                #[trigger] listed[j],
            ),
{
    let dk = dedup_key_fn();
    let d = keep_preferred(candidates, dk, has_command_fn());
    lemma_keep_preferred_distinct(candidates, dk, has_command_fn());
    let pos = choose|pos: Seq<int>| index_map(pos, listed, d);
    assert forall|i: int, j: int| 0 <= i < j < listed.len() implies dedup_key(#[trigger] listed[i])
        != dedup_key(#[trigger] listed[j]) by {
        let a = pos[i];
        let b = pos[j];
        assert(listed[i] == d[a] && listed[j] == d[b]);
        assert(a != b);
        if a < b {
            assert(dk(d[a]) != dk(d[b]));
        } else {
            assert(dk(d[b]) != dk(d[a]));
        }
    }
}

/// Entries are listed in order of their lowercased names.
pub proof fn lemma_listed_sorted(candidates: Seq<AppEntry>, listed: Seq<AppEntry>)
    requires
        listed_entries(candidates, listed),
    ensures
        forall|i: int, j: int|
            0 <= i < j < listed.len() ==> lex_le(
                lowercase_of((#[trigger] listed[i]).name@),
                lowercase_of((#[trigger] listed[j]).name@),
            ),
{
    assert(sorted_by(listed, sort_key_fn()));
    assert forall|i: int, j: int| 0 <= i < j < listed.len() implies lex_le(
        lowercase_of((#[trigger] listed[i]).name@),
        lowercase_of((#[trigger] listed[j]).name@),
    ) by {
        assert(lex_le(sort_key_fn()(listed[i]), sort_key_fn()(listed[j])));
    }
}

/// Every application among the candidates is listed, and only those.
pub proof fn lemma_listed_covers(candidates: Seq<AppEntry>, listed: Seq<AppEntry>, k: Seq<char>)
    requires
        listed_entries(candidates, listed),
    ensures
        has_key(listed, dedup_key_fn(), k) == has_key(candidates, dedup_key_fn(), k),
        forall|i: int| 0 <= i < listed.len() ==> candidates.contains(#[trigger] listed[i]),
{
    broadcast use vstd::seq_lib::group_to_multiset_ensures;

    let dk = dedup_key_fn();
    let d = keep_preferred(candidates, dk, has_command_fn());
    lemma_keep_preferred_keys(candidates, dk, has_command_fn(), k);
    if has_key(listed, dk, k) {
        let j = choose|j: int| 0 <= j < listed.len() && dk(#[trigger] listed[j]) == k;
        lemma_listed_item(d, listed, j);
        let i = choose|i: int| 0 <= i < d.len() && d[i] == listed[j];
        assert(dk(d[i]) == k);
    }
    if has_key(d, dk, k) {
        let j = choose|j: int| 0 <= j < d.len() && dk(#[trigger] d[j]) == k;
        assert(d.contains(d[j]));
        assert(d.to_multiset().count(d[j]) > 0);
        assert(listed.to_multiset().count(d[j]) > 0);
        assert(listed.contains(d[j]));
        let i = choose|i: int| 0 <= i < listed.len() && listed[i] == d[j];
        assert(dk(listed[i]) == k);
    }
    assert forall|i: int| 0 <= i < listed.len() implies candidates.contains(#[trigger] listed[i]) by {
        lemma_listed_item(d, listed, i);
        let j = choose|j: int| 0 <= j < d.len() && d[j] == listed[i];
        assert(candidates.contains(d[j]));
    }
}

/// Where some entry of an application has an uninstall command, the entry
/// listed for that application has one.
pub proof fn lemma_listed_prefers_command(candidates: Seq<AppEntry>, listed: Seq<AppEntry>, k: Seq<char>)
    requires
        listed_entries(candidates, listed),
        exists|j: int| 0 <= j < candidates.len() && dedup_key(#[trigger] candidates[j]) == k && has_command(
            candidates[j],
        ),
    ensures
        forall|i: int| 0 <= i < listed.len() && dedup_key(#[trigger] listed[i]) == k ==> has_command(listed[i]),
{
    let dk = dedup_key_fn();
    let hc = has_command_fn();
    let d = keep_preferred(candidates, dk, hc);
    let j = choose|j: int| 0 <= j < candidates.len() && dedup_key(#[trigger] candidates[j]) == k && has_command(
        candidates[j],
    );
    assert(dk(candidates[j]) == k && hc(candidates[j]));
    assert(has_preferred(candidates, dk, hc, k));
    lemma_keep_preferred_prefers(candidates, dk, hc, k);
    assert forall|i: int| 0 <= i < listed.len() && dedup_key(#[trigger] listed[i]) == k implies has_command(
        listed[i],
    ) by {
        lemma_listed_item(d, listed, i);
        let m = choose|m: int| 0 <= m < d.len() && d[m] == listed[i];
        assert(dk(d[m]) == k);
        assert(hc(d[m]));
    }
}

/// A registry entry is marked as missing its uninstaller exactly when it has
/// no uninstall command and no fallback command.
pub proof fn lemma_missing_iff_no_command(v: RegistryValues, sub_name: Seq<char>, is_64: bool)
    ensures
        read_entry_spec(v, sub_name, is_64) matches Some(e) ==> (e.uninstaller_missing <==> !(
        e.uninstall_string is Some || e.fallback_uninstall_string is Some)),
{
}

/// A registry text value that is present and not blank.
pub open spec fn given(o: Option<String>) -> bool {
    o matches Some(x) && trim(x@).len() > 0
}

/// What an entry read from an uninstall key holds: there is an entry exactly
/// when the display name is present and not blank, and then its name, its
/// publisher, version, install location and icon are the registry values
/// where present and not blank (and absent otherwise); the fallback command
/// is the plain uninstall command on the same terms; a quiet command that
/// does not say `none` is the uninstall command; the size is the estimated
/// size in KB rounded up to whole MB; the key, source, bitness and system
/// flag come from the subkey name, `registry`, the view and `SystemComponent = 1`.
pub proof fn lemma_entry_from_values(v: RegistryValues, sub_name: Seq<char>, is_64: bool)
    ensures
        read_entry_spec(v, sub_name, is_64) is Some <==> given(v.display_name),
        read_entry_spec(v, sub_name, is_64) matches Some(e) ==> {
            &&& e.name == v.display_name->0@
            &&& (given(v.publisher) ==> e.publisher == Some(v.publisher->0@))
            &&& (!given(v.publisher) ==> e.publisher is None)
            &&& (given(v.display_version) ==> e.version == Some(v.display_version->0@))
            &&& (!given(v.display_version) ==> e.version is None)
            &&& (given(v.install_location) ==> e.install_location == Some(v.install_location->0@))
            &&& (!given(v.install_location) ==> e.install_location is None)
            &&& (given(v.display_icon) ==> e.display_icon == Some(v.display_icon->0@))
            &&& (!given(v.display_icon) ==> e.display_icon is None)
            &&& (given(v.uninstall_string) ==> e.fallback_uninstall_string == Some(v.uninstall_string->0@))
            &&& (!given(v.uninstall_string) ==> e.fallback_uninstall_string is None)
            &&& (given(v.quiet_uninstall_string) && !contains_seq(
                lowercase_of(v.quiet_uninstall_string->0@),
                "none"@,
            ) ==> e.uninstall_string == Some(v.quiet_uninstall_string->0@))
            &&& (!given(v.quiet_uninstall_string) && !given(v.uninstall_string) ==> e.uninstall_string is None)
            &&& (e.uninstaller_missing <==> e.uninstall_string is None && e.fallback_uninstall_string is None)
            &&& (v.estimated_size is None ==> e.size_mb is None)
            &&& (v.estimated_size matches Some(kb) ==> e.size_mb matches Some(mb) && mb * 1024 >= kb && mb
                * 1024 < kb + 1024)
            &&& e.registry_key == Some(sub_name)
            &&& e.source == "registry"@
            &&& e.is_64bit == Some(is_64)
            &&& e.is_system_component == (v.system_component == Some(1u32))
            &&& e.cert_status is None
        },
{
    if let Some(kb) = v.estimated_size {
        let mb: int = (kb + 1023) / 1024;
        assert(mb * 1024 >= kb && mb * 1024 < kb + 1024) by (nonlinear_arith)
            requires
                mb == (kb + 1023) / 1024,
                kb >= 0,
        ;
    }
}

/// An install date of eight ASCII digits `YYYYMMDD` is shown as
/// `YYYY-MM-DD`; a value with a character other than a digit gives no date.
pub proof fn lemma_entry_install_date(v: RegistryValues, sub_name: Seq<char>, is_64: bool)
    ensures
        read_entry_spec(v, sub_name, is_64) matches Some(e) ==> {
            &&& (v.install_date is Some && v.install_date->0@.len() == 8 && (forall|i: int|
                0 <= i < 8 ==> '0' <= #[trigger] v.install_date->0@[i] <= '9') ==> e.install_date == Some(
                v.install_date->0@.take(4) + "-"@ + v.install_date->0@.subrange(4, 6) + "-"@
                    + v.install_date->0@.subrange(6, 8),
            ))
            &&& (v.install_date is Some && (exists|i: int|
                0 <= i < v.install_date->0@.len() && !('0' <= #[trigger] v.install_date->0@[i] <= '9'))
                ==> e.install_date is None)
            &&& (v.install_date is None ==> e.install_date is None)
        },
{
    if let Some(d) = v.install_date {
        let s = d@;
        if s.len() == 8 && (forall|i: int| 0 <= i < 8 ==> '0' <= #[trigger] s[i] <= '9') {
            assert(is_ascii_text(s)) by {
                assert forall|i: int| 0 <= i < s.len() implies (#[trigger] s[i] as u32) < 0x80 by {
                    assert('0' <= s[i] <= '9');
                }
            }
            assert('0' <= s[0] <= '9' && '0' <= s[7] <= '9');
            lemma_trim_unpadded(s);
            lemma_ascii_byte_prefix(s, 0);
            assert(all_digits(s));
        }
    }
}

} // verus!
