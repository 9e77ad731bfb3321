//! Packaged (UWP / MSIX) applications.
use crate::models::{entry_views, opt_view, AppEntry, AppEntryView};
use crate::json::{json_value_of, json_view, parse_json, JsonValue, JsonView};
use crate::text::{contains_seq, contains_str, same_str, trim, trim_str};
use vstd::prelude::*;

verus! {

/// The fields of one package as listed by the system (`None` where a field is
/// missing or not text).
pub struct UwpPackage {
    pub name: Option<String>,
    pub publisher: Option<String>,
    pub version: Option<String>,
    pub install_location: Option<String>,
    pub architecture: Option<String>,
}

/// A package's fields as text: name, publisher, version, install location
/// and architecture.
pub type PackageFields = (
    Option<Seq<char>>,
    Option<Seq<char>>,
    Option<Seq<char>>,
    Option<Seq<char>>,
    Option<Seq<char>>,
);

impl View for UwpPackage {
    type V = PackageFields;

    open spec fn view(&self) -> PackageFields {
        (
            opt_view(self.name),
            opt_view(self.publisher),
            opt_view(self.version),
            opt_view(self.install_location),
            opt_view(self.architecture),
        )
    }
}

/// The views of a list of packages.
pub open spec fn package_views(s: Seq<UwpPackage>) -> Seq<PackageFields> {
    s.map_values(|p: UwpPackage| p@)
}

/// The entry for a package: none without a (non-empty) name; a package is
/// removed by the system, so it needs no uninstall command.
pub open spec fn uwp_entry_spec(p: PackageFields) -> Option<AppEntryView> {
    match p.0 {
        Some(n) => if n.len() > 0 {
            Some(
                AppEntryView {
                    name: n,
                    publisher: p.1,
                    version: p.2,
                    size_mb: None,
                    install_date: None,
                    install_location: p.3,
                    uninstall_string: None,
                    fallback_uninstall_string: None,
                    display_icon: None,
                    registry_key: None,
                    source: "uwp"@,
                    is_system_component: false,
                    uninstaller_missing: false,
                    is_64bit: match p.4 {
                        Some(a) => Some(contains_seq(a, "64"@)),
                        None => None,
                    },
                    cert_status: None,
                },
            )
        } else {
            None
        },
        None => None,
    }
}

/// The entries for the packages that have a name, in order.
pub open spec fn uwp_entries_spec(ps: Seq<PackageFields>) -> Seq<AppEntryView>
    decreases ps.len(),
{
    if ps.len() == 0 {
        Seq::empty()
    } else {
        let prev = uwp_entries_spec(ps.drop_last());
        match uwp_entry_spec(ps.last()) {
            Some(e) => prev.push(e),
            None => prev,
        }
    }
}

/// The entry for one package.
pub fn uwp_entry(p: UwpPackage) -> (r: Option<AppEntry>)
    ensures
        match r {
            Some(e) => uwp_entry_spec(p@) == Some(e@),
            None => uwp_entry_spec(p@) is None,
        },
{
    let name = match p.name {
        Some(n) => n,
        None => return None,
    };
    if name.as_str().is_empty() {
        return None;
    }
    let is_64bit = match &p.architecture {
        Some(a) => Some(contains_str(a.as_str(), "64")),
        None => None,
    };
    Some(
        AppEntry {
            name,
            publisher: p.publisher,
            version: p.version,
            size_mb: None,
            install_date: None,
            install_location: p.install_location,
            uninstall_string: None,
            fallback_uninstall_string: None,
            display_icon: None,
            registry_key: None,
            source: String::from_str("uwp"),
            is_system_component: false,
            uninstaller_missing: false,
            is_64bit,
            cert_status: None,
        },
    )
}

/// The entries for the packages that have a name, in order.
pub fn uwp_entries(packages: Vec<UwpPackage>) -> (r: Vec<AppEntry>)
    ensures
        entry_views(r@) == uwp_entries_spec(package_views(packages@)),
{
    let ghost orig = packages@;
    let mut packages = packages;
    let mut out: Vec<AppEntry> = Vec::new();
    let ghost mut n: int = 0;
    assert(package_views(orig.take(0)) == Seq::<PackageFields>::empty());
    while packages.len() > 0
        invariant
            0 <= n <= orig.len(),
            packages@ == orig.skip(n),
            entry_views(out@) == uwp_entries_spec(package_views(orig.take(n))),
        decreases packages.len(),
    {
        let p = packages.remove(0);
        assert(p == orig[n]);
        assert(package_views(orig.take(n + 1)).drop_last() == package_views(orig.take(n)));
        assert(package_views(orig.take(n + 1)).last() == p@);
        let ghost before = entry_views(out@);
        match uwp_entry(p) {
            Some(e) => {
                out.push(e);
                assert(entry_views(out@) == before.push(out@.last()@));
            },
            None => {},
        }
        proof {
            n = n + 1;
            assert(packages@ == orig.skip(n));
        }
    }
    assert(orig.take(n) == orig);
    out
}

/// The value of the first member of `members` named `k`.
pub open spec fn member(members: Seq<(Seq<char>, JsonView)>, k: Seq<char>) -> Option<JsonView>
    decreases members.len(),
{
    if members.len() == 0 {
        None
    } else if members[0].0 == k {
        Some(members[0].1)
    } else {
        member(members.drop_first(), k)
    }
}

/// The member `k` of an object where it is a JSON string.
pub open spec fn text_member(v: JsonView, k: Seq<char>) -> Option<Seq<char>> {
    match v {
        JsonView::Object(members) => match member(members, k) {
            Some(JsonView::Str(s)) => Some(s),
            _ => None,
        },
        _ => None,
    }
}

/// The package that a listed item describes: its `Name`, `Publisher`,
/// `Version`, `InstallLocation` and `Architecture` members that are strings.
pub open spec fn package_of(v: JsonView) -> PackageFields {
    (
        text_member(v, "Name"@),
        text_member(v, "Publisher"@),
        text_member(v, "Version"@),
        text_member(v, "InstallLocation"@),
        text_member(v, "Architecture"@),
    )
}

/// The packages of a listing: one per item of an array, one for a lone
/// object, none for any other value.
pub open spec fn appx_items_spec(v: JsonView) -> Seq<PackageFields> {
    match v {
        JsonView::Array(items) => items.map_values(|x: JsonView| package_of(x)),
        JsonView::Object(_) => seq![package_of(v)],
        _ => Seq::empty(),
    }
}

/// The member `k` of `v` when `v` is an object and the member is a string.
fn text_member_of(v: &JsonValue, k: &str) -> (r: Option<String>)
    ensures
        opt_view(r) == text_member(v@, k@),
{
    match v {
        JsonValue::Object(members) => {
            let ghost mv = match v@ {
                JsonView::Object(m) => m,
                _ => Seq::empty(),
            };
            assert(mv.len() == members.len());
            assert(v@ == JsonView::Object(mv));
            assert forall|j: int| 0 <= j < members.len() implies #[trigger] mv[j] == (
                members@[j].0@,
                members@[j].1@,
            ) by {}
            let mut i: usize = 0;
            assert(mv.skip(0) == mv);
            while i < members.len()
                invariant
                    i <= members.len(),
                    mv.len() == members.len(),
                    v@ == JsonView::Object(mv),
                    forall|j: int| 0 <= j < members.len() ==> #[trigger] mv[j] == (members@[j].0@, members@[j].1@),
                    member(mv, k@) == member(mv.skip(i as int), k@),
                decreases members.len() - i,
            {
                let ghost rest = mv.skip(i as int);
                assert(rest[0] == mv[i as int]);
                assert(rest.drop_first() == mv.skip(i + 1));
                if same_str(members[i].0.as_str(), k) {
                    assert(member(mv, k@) == Some(members@[i as int].1@));
                    return match &members[i].1 {
                        JsonValue::Str(s) => {
                            assert(members@[i as int].1@ == JsonView::Str(s@));
                            let c = s.clone();
                            assert(c@ == s@);
                            Some(c)
                        },
                        _ => {
                            assert(!(members@[i as int].1@ is Str));
                            None
                        },
                    };
                }
                i += 1;
            }
            None
        },
        _ => None,
    }
}

/// The package described by one listed item.
fn package_from(v: &JsonValue) -> (r: UwpPackage)
    ensures
        r@ == package_of(v@),
{
    UwpPackage {
        name: text_member_of(v, "Name"),
        publisher: text_member_of(v, "Publisher"),
        version: text_member_of(v, "Version"),
        install_location: text_member_of(v, "InstallLocation"),
        architecture: text_member_of(v, "Architecture"),
    }
}

/// The packages of a listing: one per item of an array, one for a lone
/// object, none for any other value; each package's fields are the item's
/// string members `Name`, `Publisher`, `Version`, `InstallLocation` and
/// `Architecture`.
pub fn appx_items(v: &JsonValue) -> (r: Vec<UwpPackage>)
    ensures
        package_views(r@) == appx_items_spec(v@),
{
    match v {
        JsonValue::Array(items) => {
            let ghost target = appx_items_spec(v@);
            assert(target.len() == items.len());
            let mut out: Vec<UwpPackage> = Vec::new();
            let mut i: usize = 0;
            while i < items.len()
                invariant
                    i <= items.len(),
                    target == appx_items_spec(v@),
                    target.len() == items.len(),
                    forall|j: int| 0 <= j < items.len() ==> #[trigger] target[j] == package_of(items@[j]@),
                    package_views(out@) == target.take(i as int),
                decreases items.len() - i,
            {
                let p = package_from(&items[i]);
                let ghost before = package_views(out@);
                out.push(p);
                assert(package_views(out@) == before.push(p@));
                assert(target.take(i + 1) == target.take(i as int).push(target[i as int]));
                i += 1;
            }
            assert(target.take(items.len() as int) == target);
            out
        },
        JsonValue::Object(_) => {
            let p = package_from(v);
            let out = vec![p];
            assert(package_views(out@) == seq![p@]);
            out
        },
        _ => {
            let out: Vec<UwpPackage> = Vec::new();
            assert(package_views(out@) == Seq::<PackageFields>::empty());
            out
        },
    }
}

/// The packaged applications in the system's listing: none when the listing
/// did not succeed (`ok` false) or printed nothing but blanks; otherwise the
/// entries for the packages of the JSON document in the trimmed text, none
/// when it is not JSON.
pub fn uwp_entries_from_output(ok: bool, stdout_text: &str) -> (r: Vec<AppEntry>)
    ensures
        entry_views(r@) == (if ok && trim(stdout_text@).len() > 0 {
            match json_value_of(trim(stdout_text@)) {
                Some(v) => uwp_entries_spec(appx_items_spec(v)),
                None => Seq::empty(),
            }
        } else {
            Seq::empty()
        }),
{
    if !ok {
        return Vec::new();
    }
    let text = trim_str(stdout_text);
    if text.as_str().is_empty() {
        return Vec::new();
    }
    match parse_json(text.as_str()) {
        Some(v) => uwp_entries(appx_items(&v)),
        None => Vec::new(),
    }
}

} // verus!
