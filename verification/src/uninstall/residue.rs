//! Finding and removing what an application leaves behind.
use crate::models::{opt_view, AppEntry};
use crate::text::{
    after_last, after_last_str, boundary_index, byte_len, byte_prefix, byte_suffix, chars_of,
    concat3, concat_str, contains_chars, contains_seq, ends_with, ends_with_str, is_boundary,
    ascii_lower_text, is_ascii_text, is_ws, lemma_ascii_byte_prefix, lemma_ascii_lower_concat, lemma_trim_ends,
    lemma_trim_unpadded, lemma_contains_within, lowercase_of, same_str, starts_with, starts_with_str, string_of, sub_chars, to_lowercase, trim,
    trim_chars, trim_start_by, trim_start_chars, trim_str, utf8_len, CharClass,
};
use vstd::prelude::*;

verus! {

/// One file, shortcut or registry key left behind by an application.
#[derive(Clone, Debug)]
pub struct ResidueItem {
    /// `file`, `registry` or `shortcut`.
    pub kind: String,
    /// Absolute path or registry key path.
    pub path: String,
    /// File or key name.
    pub name: String,
    /// Size in bytes, for files.
    pub size_bytes: Option<u64>,
    /// Whether it is considered safe to delete.
    pub safe: bool,
}

/// The value of a `ResidueItem`.
pub struct ResidueItemView {
    pub kind: Seq<char>,
    pub path: Seq<char>,
    pub name: Seq<char>,
    pub size_bytes: Option<u64>,
    pub safe: bool,
}

impl View for ResidueItem {
    type V = ResidueItemView;

    open spec fn view(&self) -> ResidueItemView {
        ResidueItemView {
            kind: self.kind@,
            path: self.path@,
            name: self.name@,
            size_bytes: self.size_bytes,
            safe: self.safe,
        }
    }
}

/// The views of a list of residue items.
pub open spec fn item_views(s: Seq<ResidueItem>) -> Seq<ResidueItemView> {
    s.map_values(|i: ResidueItem| i@)
}

/// The residue found for one application.
#[derive(Clone, Debug)]
pub struct ResidueReport {
    pub files: Vec<ResidueItem>,
    pub shortcuts: Vec<ResidueItem>,
    pub registry: Vec<ResidueItem>,
    /// Sum of the known file sizes.
    pub total_size_bytes: u64,
}

/// The outcome of removing residue items: removed paths, and failures with their reasons.
#[derive(Clone, Debug)]
pub struct RemoveResult {
    pub ok: Vec<String>,
    pub failed: Vec<(String, String)>,
}

/// Name suffixes that are dropped before matching, in the order they are tried.
pub open spec fn name_suffixes() -> Seq<Seq<char>> {
    seq![" (x64)"@, " (32-bit)"@, " 64-bit"@, " - 中文"@, " (zh-CN)"@]
}

fn name_suffix(k: usize) -> (r: &'static str)
    requires
        k < 5,
    ensures
        r@ == name_suffixes()[k as int],
{
    if k == 0 {
        " (x64)"
    } else if k == 1 {
        " (32-bit)"
    } else if k == 2 {
        " 64-bit"
    } else if k == 3 {
        " - 中文"
    } else {
        " (zh-CN)"
    }
}

/// The first suffix, from index `k` on, that the lowercased name ends with
/// (both lowercased).
pub open spec fn suffix_match_from(t: Seq<char>, k: int) -> Option<int>
    decreases 5 - k,
{
    if k >= 5 || k < 0 {
        None
    } else if ends_with(lowercase_of(t), lowercase_of(name_suffixes()[k])) {
        Some(k)
    } else {
        suffix_match_from(t, k + 1)
    }
}

/// The byte offset at which the matched suffix starts in the trimmed name.
pub open spec fn suffix_cut(t: Seq<char>, k: int) -> int {
    utf8_len(t) - utf8_len(name_suffixes()[k])
}

/// The trimmed name without its first matching suffix, trimmed again.
pub open spec fn stripped_name(name: Seq<char>) -> Seq<char> {
    let t = trim(name);
    match suffix_match_from(t, 0) {
        Some(k) => trim(byte_prefix(t, suffix_cut(t, k))),
        None => t,
    }
}

/// The name used to recognise an application's residue: the trimmed name
/// without a known suffix, cut to its first 40 bytes.
pub open spec fn base_name_of(name: Seq<char>) -> Seq<char> {
    let n = stripped_name(name);
    if utf8_len(n) > 40 {
        byte_prefix(n, 40)
    } else {
        n
    }
}

/// The byte offsets at which the base name is cut fall between characters,
/// so that computing it does not fail.
pub open spec fn base_name_defined(name: Seq<char>) -> bool {
    let t = trim(name);
    &&& match suffix_match_from(t, 0) {
        Some(k) => is_boundary(t, suffix_cut(t, k)),
        None => true,
    }
    &&& utf8_len(stripped_name(name)) > 40 ==> is_boundary(stripped_name(name), 40)
}

proof fn lemma_suffix_match_skip(t: Seq<char>, k: int)
    requires
        0 <= k <= 5,
        forall|j: int|
            0 <= j < k ==> !ends_with(lowercase_of(t), lowercase_of(#[trigger] name_suffixes()[j])),
    ensures
        suffix_match_from(t, 0) == suffix_match_from(t, k),
    decreases k,
{
    if k > 0 {
        lemma_suffix_match_skip(t, k - 1);
    }
}

fn find_suffix(t: &String, tl: &String) -> (r: Option<usize>)
    requires
        tl@ == lowercase_of(t@),
    ensures
        r matches Some(k) ==> k < 5,
        match r {
            Some(k) => suffix_match_from(t@, 0) == Some(k as int),
            None => suffix_match_from(t@, 0) is None,
        },
{
    let mut k: usize = 0;
    while k < 5
        invariant
            k <= 5,
            tl@ == lowercase_of(t@),
            forall|j: int|
                0 <= j < k ==> !ends_with(lowercase_of(t@), lowercase_of(#[trigger] name_suffixes()[j])),
        decreases 5 - k,
    {
        let suffix = name_suffix(k);
        let sl = to_lowercase(suffix);
        if ends_with_str(tl.as_str(), sl.as_str()) {
            proof {
                lemma_suffix_match_skip(t@, k as int);
            }
            return Some(k);
        }
        assert(!ends_with(lowercase_of(t@), lowercase_of(name_suffixes()[k as int])));
        k += 1;
    }
    proof {
        lemma_suffix_match_skip(t@, 5);
    }
    None
}

fn base_name_parts(name: &str) -> (r: Option<String>)
    ensures
        r is Some <==> base_name_defined(name@),
        r matches Some(b) ==> b@ == base_name_of(name@),
{
    let t = trim_str(name);
    let tl = to_lowercase(t.as_str());
    let tv = chars_of(t.as_str());
    let matched = find_suffix(&t, &tl);
    let n: Vec<char> = match matched {
        Some(k) => {
            let total: u128 = byte_len(&tv);
            let sv = chars_of(name_suffix(k));
            let sb: u128 = byte_len(&sv);
            if sb > total {
                return None;
            }
            match boundary_index(&tv, total - sb) {
                Some(c) => {
                    let pre = sub_chars(&tv, 0, c);
                    assert(pre@ == tv@.take(c as int));
                    trim_chars(&pre, &CharClass::Whitespace)
                },
                None => {
                    return None;
                },
            }
        },
        None => tv,
    };
    assert(n@ == stripped_name(name@));
    let nb: u128 = byte_len(&n);
    if nb > 40 {
        match boundary_index(&n, 40) {
            Some(c) => {
                let cut = sub_chars(&n, 0, c);
                assert(cut@ == n@.take(c as int));
                Some(string_of(cut.as_slice()))
            },
            None => None,
        }
    } else {
        Some(string_of(n.as_slice()))
    }
}

/// The name used to recognise an application's residue (see `base_name_of`).
pub fn base_name(app: &AppEntry) -> (r: String)
    requires
        base_name_defined(app.name@),
    ensures
        r@ == base_name_of(app.name@),
{
    base_name_parts(app.name.as_str()).unwrap()
}

/// `base_name` when it is defined for the application's name, `None` where
/// computing it would cut a character in two.
pub fn checked_base_name(app: &AppEntry) -> (r: Option<String>)
    ensures
        r is Some <==> base_name_defined(app.name@),
        r matches Some(b) ==> b@ == base_name_of(app.name@),
{
    match base_name_parts(app.name.as_str()) {
        Some(_) => Some(base_name(app)),
        None => None,
    }
}

/// The trimmed, lowercased publisher (empty when there is none).
pub open spec fn publisher_key(publisher: Option<Seq<char>>) -> Seq<char> {
    lowercase_of(
        trim(
            match publisher {
                Some(p) => p,
                None => Seq::empty(),
            },
        ),
    )
}

/// Whether a file or key name looks like it belongs to the application: its
/// lowercased form contains the lowercased base name (of at least 3 bytes) or
/// the lowercased, trimmed publisher (of at least 3 bytes).
pub open spec fn name_matches_spec(
    name: Seq<char>,
    publisher: Option<Seq<char>>,
    candidate: Seq<char>,
) -> bool {
    let c = lowercase_of(candidate);
    let b = lowercase_of(base_name_of(name));
    let p = publisher_key(publisher);
    (utf8_len(b) >= 3 && contains_seq(c, b)) || (utf8_len(p) >= 3 && contains_seq(c, p))
}

/// The residue key of a registry subkey: it is the lowercased base name
/// (of at least 3 bytes) or contains it, once lowercased.
pub open spec fn software_key_matches(name: Seq<char>, key: Seq<char>) -> bool {
    let b = base_name_of(name);
    let bl = lowercase_of(b);
    let k = lowercase_of(key);
    utf8_len(b) >= 3 && (k == bl || contains_seq(k, bl))
}

/// What is needed to recognise one application's residue.
pub struct ResidueMatcher {
    base: Vec<char>,
    base_lower: Vec<char>,
    publisher_lower: Vec<char>,
    name: Ghost<Seq<char>>,
    publisher: Ghost<Option<Seq<char>>>,
}

impl ResidueMatcher {
    #[verifier::type_invariant]
    spec fn matcher_inv(self) -> bool {
        &&& base_name_defined(self.name@)
        &&& self.base@ == base_name_of(self.name@)
        &&& self.base_lower@ == lowercase_of(self.base@)
        &&& self.publisher_lower@ == publisher_key(self.publisher@)
    }

    /// The application's name.
    pub closed spec fn app_name(self) -> Seq<char> {
        self.name@
    }

    /// The application's publisher.
    pub closed spec fn app_publisher(self) -> Option<Seq<char>> {
        self.publisher@
    }

    /// A matcher for an application, when its base name is defined.
    pub fn for_app(app: &AppEntry) -> (r: Option<Self>)
        ensures
            r is Some <==> base_name_defined(app.name@),
            r matches Some(m) ==> m.app_name() == app.name@ && m.app_publisher() == opt_view(
                app.publisher,
            ),
    {
        let b = match base_name_parts(app.name.as_str()) {
            Some(b) => b,
            None => return None,
        };
        let bl = to_lowercase(b.as_str());
        let p = match &app.publisher {
            Some(p) => trim_str(p.as_str()),
            None => String::new(),
        };
        let pl = to_lowercase(p.as_str());
        Some(
            ResidueMatcher {
                base: chars_of(b.as_str()),
                base_lower: chars_of(bl.as_str()),
                publisher_lower: chars_of(pl.as_str()),
                name: Ghost(app.name@),
                publisher: Ghost(opt_view(app.publisher)),
            },
        )
    }

    /// Whether a file, folder or shortcut name looks like the application's.
    pub fn matches(&self, candidate: &str) -> (r: bool)
        ensures
            r == name_matches_spec(self.app_name(), self.app_publisher(), candidate@),
    {
        proof {
            use_type_invariant(self);
        }
        let c = to_lowercase(candidate);
        let cv = chars_of(c.as_str());
        if byte_len(&self.base_lower) >= 3 && contains_chars(&cv, &self.base_lower) {
            return true;
        }
        byte_len(&self.publisher_lower) >= 3 && contains_chars(&cv, &self.publisher_lower)
    }

    /// The registry residue item for subkey `key` of `hive_name\Software`,
    /// when the key belongs to the application.
    pub fn software_key_item(&self, hive_name: &str, key: String) -> (r: Option<ResidueItem>)
        ensures
            r is Some <==> software_key_matches(self.app_name(), key@),
            r matches Some(i) ==> i@ == (ResidueItemView {
                kind: "registry"@,
                path: hive_name@ + "\\Software\\"@ + key@,
                name: key@,
                size_bytes: None,
                safe: false,
            }),
    {
        proof {
            use_type_invariant(self);
        }
        if byte_len(&self.base) < 3 {
            return None;
        }
        let k = to_lowercase(key.as_str());
        let kv = chars_of(k.as_str());
        if contains_chars(&kv, &self.base_lower) {
            let path = concat3(hive_name, "\\Software\\", key.as_str());
            Some(
                ResidueItem {
                    kind: String::from_str("registry"),
                    path,
                    name: key,
                    size_bytes: None,
                    safe: false,
                },
            )
        } else {
            proof {
                if kv@ == self.base_lower@ {
                    assert(kv@.subrange(0, self.base_lower@.len() as int) == kv@);
                    assert(crate::text::occurs_at(kv@, self.base_lower@, 0));
                }
            }
            None
        }
    }
}

/// Whether a file or folder name looks like the application's (see `name_matches_spec`).
pub fn name_matches(app: &AppEntry, candidate: &str) -> (r: bool)
    requires
        base_name_defined(app.name@),
    ensures
        r == name_matches_spec(app.name@, opt_view(app.publisher), candidate@),
{
    let m = ResidueMatcher::for_app(app).unwrap();
    m.matches(candidate)
}

/// `name_matches` when the application's base name is defined, `None` otherwise.
pub fn checked_name_matches(app: &AppEntry, candidate: &str) -> (r: Option<bool>)
    ensures
        r is Some <==> base_name_defined(app.name@),
        r matches Some(b) ==> b == name_matches_spec(app.name@, opt_view(app.publisher), candidate@),
{
    match ResidueMatcher::for_app(app) {
        Some(_) => Some(name_matches(app, candidate)),
        None => None,
    }
}


/// Records a file found as residue: safe to delete, with its size when known.
pub fn add_file_item(path: String, name: String, size_bytes: Option<u64>, out: &mut Vec<ResidueItem>)
    ensures
        item_views(final(out)@) == item_views(old(out)@).push(
            ResidueItemView { kind: "file"@, path: path@, name: name@, size_bytes, safe: true },
        ),
{
    let ghost before = item_views(out@);
    out.push(ResidueItem { kind: String::from_str("file"), path, name, size_bytes, safe: true });
    assert(item_views(out@) =~= before.push(out@.last()@));
}

/// Records a folder found as residue: safe to delete, of unknown size.
pub fn add_dir_item(path: String, name: String, out: &mut Vec<ResidueItem>)
    ensures
        item_views(final(out)@) == item_views(old(out)@).push(
            ResidueItemView { kind: "file"@, path: path@, name: name@, size_bytes: None, safe: true },
        ),
{
    add_file_item(path, name, None, out);
}

/// The application's own uninstall registry key, as a residue item that is not
/// considered safe to delete; none when the application has no key.
pub fn registry_self_item(app: &AppEntry) -> (r: Option<ResidueItem>)
    ensures
        match app.registry_key {
            Some(k) => if k@.len() > 0 {
                r matches Some(i) && i@ == (ResidueItemView {
                    kind: "registry"@,
                    path: k@,
                    name: after_last(k@, '\\'),
                    size_bytes: None,
                    safe: false,
                })
            } else {
                r is None
            },
            None => r is None,
        },
{
    match &app.registry_key {
        Some(k) => {
            if k.as_str().is_empty() {
                None
            } else {
                Some(
                    ResidueItem {
                        kind: String::from_str("registry"),
                        path: k.clone(),
                        name: after_last_str(k.as_str(), '\\'),
                        size_bytes: None,
                        safe: false,
                    },
                )
            }
        },
        None => None,
    }
}

/// What to do with one entry of a scanned folder.
#[derive(PartialEq, Eq, Structural, Debug)]
pub enum Level1Action {
    /// Not the application's.
    Skip,
    /// A file of the application: record it.
    AddFile,
    /// A folder of the application: record its matching children, then the folder.
    ExpandDir,
}

impl ResidueMatcher {
    /// What to do with a folder entry whose name is `name` (`None` when the name
    /// is not valid Unicode): entries that do not match are skipped, matching
    /// folders are expanded and matching files recorded.
    pub fn level1_action(&self, name: Option<&str>, is_dir: bool) -> (r: Level1Action)
        ensures
            match name {
                Some(n) => if name_matches_spec(self.app_name(), self.app_publisher(), n@) {
                    r == if is_dir {
                        Level1Action::ExpandDir
                    } else {
                        Level1Action::AddFile
                    }
                } else {
                    r == Level1Action::Skip
                },
                None => r == Level1Action::Skip,
            },
    {
        match name {
            Some(n) => {
                if self.matches(n) {
                    if is_dir {
                        Level1Action::ExpandDir
                    } else {
                        Level1Action::AddFile
                    }
                } else {
                    Level1Action::Skip
                }
            },
            None => Level1Action::Skip,
        }
    }

    /// The shortcut residue item for a file with the given name and extension,
    /// when it is a `.lnk` file (extension compared lowercased) whose name
    /// looks like the application's.
    pub fn shortcut_item(&self, path: String, name: Option<String>, extension: Option<String>) -> (r:
        Option<ResidueItem>)
        ensures
            match (extension, name) {
                (Some(x), Some(n)) => if lowercase_of(x@) == "lnk"@ && name_matches_spec(
                    self.app_name(),
                    self.app_publisher(),
                    n@,
                ) {
                    r matches Some(i) && i@ == (ResidueItemView {
                        kind: "shortcut"@,
                        path: path@,
                        name: n@,
                        size_bytes: None,
                        safe: true,
                    })
                } else {
                    r is None
                },
                _ => r is None,
            },
    {
        let is_lnk = match &extension {
            Some(x) => {
                let l = to_lowercase(x.as_str());
                same_str(l.as_str(), "lnk")
            },
            None => false,
        };
        if !is_lnk {
            return None;
        }
        match name {
            Some(n) => {
                if self.matches(n.as_str()) {
                    Some(
                        ResidueItem {
                            kind: String::from_str("shortcut"),
                            path,
                            name: n,
                            size_bytes: None,
                            safe: true,
                        },
                    )
                } else {
                    None
                }
            },
            None => None,
        }
    }
}

/// The sum of the known sizes of the items.
pub open spec fn total_size(s: Seq<ResidueItem>) -> nat
    decreases s.len(),
{
    if s.len() == 0 {
        0
    } else {
        total_size(s.drop_last()) + match s.last().size_bytes {
            Some(n) => n as nat,
            None => 0nat,
        }
    }
}

fn sum_sizes(files: &Vec<ResidueItem>) -> (r: Option<u64>)
    ensures
        match r {
            Some(t) => t == total_size(files@),
            None => total_size(files@) > u64::MAX,
        },
{
    let mut acc: u64 = 0;
    let mut i: usize = 0;
    assert(files@.take(0) == Seq::<ResidueItem>::empty());
    while i < files.len()
        invariant
            i <= files.len(),
            acc == total_size(files@.take(i as int)),
        decreases files.len() - i,
    {
        assert(files@.take(i + 1).drop_last() == files@.take(i as int));
        let add: u64 = match files[i].size_bytes {
            Some(n) => n,
            None => 0,
        };
        if add > u64::MAX - acc {
            proof {
                lemma_total_size_mono(files@, i + 1);
            }
            return None;
        }
        acc = acc + add;
        i += 1;
    }
    assert(files@.take(files.len() as int) == files@);
    Some(acc)
}

proof fn lemma_total_size_mono(s: Seq<ResidueItem>, i: int)
    requires
        0 <= i <= s.len(),
    ensures
        total_size(s.take(i)) <= total_size(s),
    decreases s.len() - i,
{
    if i < s.len() {
        lemma_total_size_mono(s, i + 1);
        assert(s.take(i + 1).drop_last() == s.take(i));
    } else {
        assert(s.take(i) == s);
    }
}

/// The residue report; the total is the sum of the known file sizes.
pub fn residue_report(
    files: Vec<ResidueItem>,
    shortcuts: Vec<ResidueItem>,
    registry: Vec<ResidueItem>,
) -> (r: ResidueReport)
    requires
        total_size(files@) <= u64::MAX,
    ensures
        r.files@ == files@,
        r.shortcuts@ == shortcuts@,
        r.registry@ == registry@,
        r.total_size_bytes == total_size(files@),
{
    let total = sum_sizes(&files).unwrap();
    ResidueReport { files, shortcuts, registry, total_size_bytes: total }
}

/// `residue_report`, or `None` when the total size does not fit in 64 bits.
pub fn checked_residue_report(
    files: Vec<ResidueItem>,
    shortcuts: Vec<ResidueItem>,
    registry: Vec<ResidueItem>,
) -> (r: Option<ResidueReport>)
    ensures
        r is Some <==> total_size(files@) <= u64::MAX,
        r matches Some(rep) ==> rep.files@ == files@ && rep.shortcuts@ == shortcuts@
            && rep.registry@ == registry@ && rep.total_size_bytes == total_size(files@),
{
    match sum_sizes(&files) {
        Some(_) => Some(residue_report(files, shortcuts, registry)),
        None => None,
    }
}

/// How a residue item is removed.
#[derive(PartialEq, Eq, Structural, Debug)]
pub enum RemovalMethod {
    /// Delete the registry key with its subkeys.
    DeleteRegistryKey,
    /// Move the file or folder to the recycle bin.
    Recycle,
}

/// Registry items are deleted from the registry; everything else goes to the recycle bin.
pub fn removal_method(item: &ResidueItem) -> (r: RemovalMethod)
    ensures
        r == if item.kind@ == "registry"@ {
            RemovalMethod::DeleteRegistryKey
        } else {
            RemovalMethod::Recycle
        },
{
    if same_str(item.kind.as_str(), "registry") {
        RemovalMethod::DeleteRegistryKey
    } else {
        RemovalMethod::Recycle
    }
}

/// The paths of the items whose removal succeeded, in order.
pub open spec fn removed_paths(items: Seq<ResidueItem>, results: Seq<Result<(), String>>) -> Seq<
    Seq<char>,
>
    decreases items.len(),
{
    if items.len() == 0 || results.len() != items.len() {
        Seq::empty()
    } else {
        let prev = removed_paths(items.drop_last(), results.drop_last());
        match results.last() {
            Ok(_) => prev.push(items.last().path@),
            Err(_) => prev,
        }
    }
}

/// The paths and reasons of the items whose removal failed, in order.
pub open spec fn failed_removals(items: Seq<ResidueItem>, results: Seq<Result<(), String>>) -> Seq<
    (Seq<char>, Seq<char>),
>
    decreases items.len(),
{
    if items.len() == 0 || results.len() != items.len() {
        Seq::empty()
    } else {
        let prev = failed_removals(items.drop_last(), results.drop_last());
        match results.last() {
            Ok(_) => prev,
            Err(e) => prev.push((items.last().path@, e@)),
        }
    }
}

/// The views of a list of failures.
pub open spec fn failure_views(s: Seq<(String, String)>) -> Seq<(Seq<char>, Seq<char>)> {
    s.map_values(|p: (String, String)| (p.0@, p.1@))
}

/// Collects the outcome of removing each item (`results[i]` is the outcome for
/// `items[i]`): the paths removed, and the paths that failed with their reasons.
pub fn remove_residue(items: &Vec<ResidueItem>, results: Vec<Result<(), String>>) -> (r: RemoveResult)
    requires
        results.len() == items.len(),
    ensures
        crate::text::string_views(r.ok@) == removed_paths(items@, results@),
        failure_views(r.failed@) == failed_removals(items@, results@),
{
    let mut ok: Vec<String> = Vec::new();
    let mut failed: Vec<(String, String)> = Vec::new();
    let mut i: usize = 0;
    assert(items@.take(0) == Seq::<ResidueItem>::empty());
    assert(results@.take(0) == Seq::<Result<(), String>>::empty());
    while i < items.len()
        invariant
            i <= items.len(),
            results.len() == items.len(),
            crate::text::string_views(ok@) == removed_paths(items@.take(i as int), results@.take(i as int)),
            failure_views(failed@) == failed_removals(items@.take(i as int), results@.take(i as int)),
        decreases items.len() - i,
    {
        assert(items@.take(i + 1).drop_last() == items@.take(i as int));
        assert(results@.take(i + 1).drop_last() == results@.take(i as int));
        let ghost ok_before = crate::text::string_views(ok@);
        let ghost failed_before = failure_views(failed@);
        match &results[i] {
            Ok(_) => {
                ok.push(items[i].path.clone());
                assert(crate::text::string_views(ok@) == ok_before.push(items@[i as int].path@));
            },
            Err(e) => {
                failed.push((items[i].path.clone(), e.clone()));
                assert(failure_views(failed@) == failed_before.push((items@[i as int].path@, e@)));
            },
        }
        i += 1;
    }
    assert(items@.take(items.len() as int) == items@);
    assert(results@.take(items.len() as int) == results@);
    RemoveResult { ok, failed }
}


/// A registry root that residue keys live under.
#[derive(PartialEq, Eq, Structural, Debug, Clone, Copy)]
pub enum RegistryHive {
    /// `HKLM`
    LocalMachine,
    /// `HKCU`
    CurrentUser,
}

/// A registry key to delete: the root, the path of its parent under the root
/// (empty for a key directly under the root), and its own name.
#[derive(Debug)]
pub struct RegistryTarget {
    pub hive: RegistryHive,
    pub parent_path: String,
    pub key_name: String,
}

/// Index of the last `c` in `s`.
pub open spec fn last_index_of(s: Seq<char>, c: char) -> Option<int>
    decreases s.len(),
{
    if s.len() == 0 {
        None
    } else if s.last() == c {
        Some(s.len() - 1)
    } else {
        last_index_of(s.drop_last(), c)
    }
}

/// The root a registry path names, by its first four characters in lower case.
pub open spec fn path_hive(p: Seq<char>) -> Option<RegistryHive> {
    let l = lowercase_of(p);
    if starts_with(l, "hklm"@) {
        Some(RegistryHive::LocalMachine)
    } else if starts_with(l, "hkcu"@) {
        Some(RegistryHive::CurrentUser)
    } else {
        None
    }
}

/// Cutting the root name off a registry path does not cut a character in two.
pub open spec fn registry_path_defined(p: Seq<char>) -> bool {
    path_hive(p) is Some ==> is_boundary(p, 4)
}

/// The key that a registry residue path (`HKLM\...` or `HKCU\...`) names, or
/// the message of why it names none.
pub open spec fn registry_target_spec(p: Seq<char>) -> Result<
    (RegistryHive, Seq<char>, Seq<char>),
    Seq<char>,
> {
    match path_hive(p) {
        None => Err("不支持的注册表路径: "@ + p),
        Some(h) => {
            let rest = trim_start_by(byte_suffix(p, 4), CharClass::Exactly('\\'));
            if rest.len() == 0 {
                Err("注册表路径缺少键名"@)
            } else {
                match last_index_of(rest, '\\') {
                    Some(i) => Ok((h, rest.take(i), rest.skip(i + 1))),
                    None => Ok((h, Seq::empty(), rest)),
                }
            }
        },
    }
}

/// The view of a parsed registry path.
pub open spec fn target_view(r: Result<RegistryTarget, String>) -> Result<
    (RegistryHive, Seq<char>, Seq<char>),
    Seq<char>,
> {
    match r {
        Ok(t) => Ok((t.hive, t.parent_path@, t.key_name@)),
        Err(e) => Err(e@),
    }
}

proof fn lemma_last_index_at(s: Seq<char>, c: char, b: int)
    requires
        0 <= b <= s.len(),
        forall|k: int| b <= k < s.len() ==> #[trigger] s[k] != c,
    ensures
        b > 0 && s[b - 1] == c ==> last_index_of(s, c) == Some(b - 1),
        b == 0 ==> last_index_of(s, c) is None,
    decreases s.len() - b,
{
    if b < s.len() {
        lemma_last_index_at(s.drop_last(), c, b);
    }
}

fn registry_target_parts(path: &str) -> (r: Option<Result<RegistryTarget, String>>)
    ensures
        r is Some <==> registry_path_defined(path@),
        r matches Some(t) ==> target_view(t) == registry_target_spec(path@),
{
    let lower = to_lowercase(path);
    let hive = if starts_with_str(lower.as_str(), "hklm") {
        RegistryHive::LocalMachine
    } else if starts_with_str(lower.as_str(), "hkcu") {
        RegistryHive::CurrentUser
    } else {
        return Some(Err(concat_str("不支持的注册表路径: ", path)));
    };
    let pv = chars_of(path);
    let c = match boundary_index(&pv, 4) {
        Some(c) => c,
        None => return None,
    };
    let tail = sub_chars(&pv, c, pv.len());
    assert(tail@ == pv@.skip(c as int));
    let rest = trim_start_chars(&tail, &CharClass::Exactly('\\'));
    if rest.len() == 0 {
        return Some(Err(String::from_str("注册表路径缺少键名")));
    }
    let mut b: usize = rest.len();
    while b > 0 && rest[b - 1] != '\\'
        invariant
            b <= rest.len(),
            forall|k: int| b <= k < rest.len() ==> #[trigger] rest@[k] != '\\',
        decreases b,
    {
        b -= 1;
    }
    proof {
        lemma_last_index_at(rest@, '\\', b as int);
    }
    if b > 0 {
        let parent = sub_chars(&rest, 0, b - 1);
        let key = sub_chars(&rest, b, rest.len());
        assert(parent@ == rest@.take(b - 1));
        assert(key@ == rest@.skip(b as int));
        Some(
            Ok(
                RegistryTarget {
                    hive,
                    parent_path: string_of(parent.as_slice()),
                    key_name: string_of(key.as_slice()),
                },
            ),
        )
    } else {
        Some(Ok(RegistryTarget { hive, parent_path: String::new(), key_name: string_of(rest.as_slice()) }))
    }
}

/// The registry key a residue path names (see `registry_target_spec`).
pub fn parse_registry_path(path: &str) -> (r: Result<RegistryTarget, String>)
    requires
        registry_path_defined(path@),
    ensures
        target_view(r) == registry_target_spec(path@),
{
    registry_target_parts(path).unwrap()
}

/// `parse_registry_path`, or `None` where cutting off the root name would cut
/// a character in two.
pub fn checked_parse_registry_path(path: &str) -> (r: Option<Result<RegistryTarget, String>>)
    ensures
        r is Some <==> registry_path_defined(path@),
        r matches Some(t) ==> target_view(t) == registry_target_spec(path@),
{
    match registry_target_parts(path) {
        Some(_) => Some(parse_registry_path(path)),
        None => None,
    }
}


/// Every item is accounted for exactly once: removed, or failed with a reason.
pub proof fn lemma_remove_accounts_all(items: Seq<ResidueItem>, results: Seq<Result<(), String>>)
    requires
        results.len() == items.len(),
    ensures
        removed_paths(items, results).len() + failed_removals(items, results).len() == items.len(),
    decreases items.len(),
{
    if items.len() > 0 {
        lemma_remove_accounts_all(items.drop_last(), results.drop_last());
    }
}

/// The base name never exceeds 40 bytes.
pub proof fn lemma_base_name_short(name: Seq<char>)
    requires
        base_name_defined(name),
    ensures
        utf8_len(base_name_of(name)) <= 40,
{
    let n = stripped_name(name);
    if utf8_len(n) > 40 {
        let k = crate::text::chars_in_bytes(n, 40);
        assert(0 <= k <= n.len() && utf8_len(n.take(k)) == 40);
    }
}

/// A name that matches the application still matches with text added before
/// and after it (ASCII text, whose lowercasing goes character by character).
pub proof fn lemma_name_match_in_context(
    name: Seq<char>,
    publisher: Option<Seq<char>>,
    x: Seq<char>,
    candidate: Seq<char>,
    y: Seq<char>,
)
    requires
        is_ascii_text(x),
        is_ascii_text(candidate),
        is_ascii_text(y),
        name_matches_spec(name, publisher, candidate),
    ensures
        name_matches_spec(name, publisher, x + candidate + y),
{
    lemma_ascii_lower_concat(x, candidate);
    lemma_ascii_lower_concat(x + candidate, y);
    let lx = lowercase_of(x);
    let lc = lowercase_of(candidate);
    let ly = lowercase_of(y);
    assert(lowercase_of(x + candidate + y) == lx + lc + ly);
    let b = lowercase_of(base_name_of(name));
    let p = publisher_key(publisher);
    if utf8_len(b) >= 3 && contains_seq(lc, b) {
        lemma_contains_within(lx, lc, ly, b);
    } else {
        lemma_contains_within(lx, lc, ly, p);
    }
}

/// Matching ignores ASCII case: two ASCII names that differ only in the case
/// of letters match alike.
pub proof fn lemma_name_match_ascii_case(
    name: Seq<char>,
    publisher: Option<Seq<char>>,
    c: Seq<char>,
    d: Seq<char>,
)
    requires
        is_ascii_text(c),
        is_ascii_text(d),
        ascii_lower_text(c) == ascii_lower_text(d),
    ensures
        name_matches_spec(name, publisher, c) == name_matches_spec(name, publisher, d),
{
    assert(lowercase_of(c) == lowercase_of(d));
}

/// With the suffix `s` matched first, an ASCII name `n + s` (`n` trimmed,
/// not empty, at most 40 bytes) has the base name `n`.
proof fn lemma_base_name_of_suffixed(n: Seq<char>, s: Seq<char>, k: int)
    requires
        0 <= k < 5,
        name_suffixes()[k] == s,
        is_ascii_text(n),
        is_ascii_text(s),
        n.len() > 0,
        n.len() <= 40,
        trim(n) == n,
        s.len() > 0,
        !is_ws(s.last()),
        suffix_match_from(n + s, 0) == Some(k),
    ensures
        trim(n + s) == n + s,
        base_name_of(n + s) == n,
        base_name_defined(n + s),
{
    let t = n + s;
    lemma_trim_ends(n);
    assert(t[0] == n[0]);
    assert(t.last() == s.last());
    lemma_trim_unpadded(t);
    lemma_ascii_lower_concat(n, s);
    lemma_ascii_byte_prefix(t, n.len() as int);
    lemma_ascii_byte_prefix(s, 0);
    lemma_ascii_byte_prefix(n, 0);
    assert(t.take(n.len() as int) =~= n);
    assert(suffix_cut(t, k) == n.len());
    assert(stripped_name(t) == n);
}

/// The lowercase of ASCII text ends with the lowercase of an ASCII suffix it
/// was built with.
proof fn lemma_lower_ends_with(n: Seq<char>, s: Seq<char>)
    requires
        is_ascii_text(n),
        is_ascii_text(s),
    ensures
        ends_with(lowercase_of(n + s), lowercase_of(s)),
        lowercase_of(n + s) == lowercase_of(n) + lowercase_of(s),
{
    lemma_ascii_lower_concat(n, s);
    let l = lowercase_of(n) + lowercase_of(s);
    assert(l.skip(l.len() - lowercase_of(s).len()) =~= lowercase_of(s));
}

/// A known suffix is dropped from the name before it is used for matching:
/// for a trimmed, non-empty ASCII name `n` of at most 40 bytes, the names
/// `n (x64)`, `n (32-bit)` and `n 64-bit` all have the base name `n`, and it
/// is computed without cutting a character.
pub proof fn lemma_base_name_drops_suffix(n: Seq<char>)
    requires
        is_ascii_text(n),
        n.len() > 0,
        n.len() <= 40,
        trim(n) == n,
    ensures
        base_name_of(n + " (x64)"@) == n,
        base_name_of(n + " (32-bit)"@) == n,
        base_name_of(n + " 64-bit"@) == n,
        base_name_defined(n + " (x64)"@),
        base_name_defined(n + " (32-bit)"@),
        base_name_defined(n + " 64-bit"@),
{
    reveal_strlit(" (x64)");
    reveal_strlit(" (32-bit)");
    reveal_strlit(" 64-bit");
    let s0 = " (x64)"@;
    let s1 = " (32-bit)"@;
    let s2 = " 64-bit"@;
    assert(is_ascii_text(s0));
    assert(is_ascii_text(s1));
    assert(is_ascii_text(s2));
    assert(lowercase_of(s0) =~= s0);
    assert(lowercase_of(s1) =~= s1);
    assert(lowercase_of(s2) =~= s2);
    assert(name_suffixes()[0] == s0);
    assert(name_suffixes()[1] == s1);
    assert(name_suffixes()[2] == s2);
    // n (x64)
    lemma_lower_ends_with(n, s0);
    assert(suffix_match_from(n + s0, 0) == Some(0int));
    lemma_base_name_of_suffixed(n, s0, 0);
    // n (32-bit): it does not end with ` (x64)`.
    lemma_lower_ends_with(n, s1);
    let l1 = lowercase_of(n + s1);
    assert(l1[l1.len() - 2] == 't');
    assert(!ends_with(l1, s0)) by {
        if ends_with(l1, s0) {
            assert(l1.skip(l1.len() - 6)[4] == l1[l1.len() - 2]);
        }
    }
    assert(suffix_match_from(n + s1, 1) == Some(1int));
    assert(suffix_match_from(n + s1, 0) == Some(1int));
    lemma_base_name_of_suffixed(n, s1, 1);
    // n 64-bit: it ends with `t`, not with `)`.
    lemma_lower_ends_with(n, s2);
    let l2 = lowercase_of(n + s2);
    assert(l2.last() == 't');
    assert(!ends_with(l2, s0)) by {
        if ends_with(l2, s0) {
            assert(l2.skip(l2.len() - 6)[5] == l2.last());
        }
    }
    assert(!ends_with(l2, s1)) by {
        if ends_with(l2, s1) {
            assert(l2.skip(l2.len() - 9)[8] == l2.last());
        }
    }
    assert(suffix_match_from(n + s2, 2) == Some(2int));
    assert(suffix_match_from(n + s2, 1) == Some(2int));
    assert(suffix_match_from(n + s2, 0) == Some(2int));
    lemma_base_name_of_suffixed(n, s2, 2);
}

/// An application whose name is a known name with one of those suffixes
/// recognises residue named after the name without the suffix.
pub proof fn lemma_suffixed_name_matches_base(n: Seq<char>, publisher: Option<Seq<char>>)
    requires
        is_ascii_text(n),
        3 <= n.len() <= 40,
        trim(n) == n,
    ensures
        name_matches_spec(n + " (x64)"@, publisher, n),
        name_matches_spec(n + " (32-bit)"@, publisher, n),
        name_matches_spec(n + " 64-bit"@, publisher, n),
{
    lemma_base_name_drops_suffix(n);
    lemma_ascii_byte_prefix(n, 0);
    lemma_ascii_lower_concat(n, Seq::empty());
    let l = lowercase_of(n);
    assert(utf8_len(l) == l.len()) by {
        lemma_ascii_byte_prefix(l, 0);
    }
    assert(crate::text::occurs_at(l, l, 0)) by {
        assert(l.subrange(0, l.len() as int) =~= l);
    }
}

} // verus!
