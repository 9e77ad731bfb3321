//! Parsing uninstall commands and the decisions around running them.
use crate::models::opt_view;
use crate::text::{
    after_last, after_last_str, chars_of, concat_str, contains_seq, contains_str, fields, fields_state,
    is_ascii_text, join_strings, join_with, lemma_ascii_lower_concat, lemma_contains_within,
    lemma_fields_nonempty, lemma_join_ascii, lemma_join_push, lemma_trim_idempotent, lowercase_of,
    occurs_at, same_str, split_words, string_of, string_views, sub_chars, to_lowercase, trim,
    trim_char, trim_chars, trim_str, views_of, words, CharClass,
};
use vstd::prelude::*;

verus! {

/// An uninstall command split into program and arguments.
#[derive(Clone, Debug)]
pub struct ParsedCommand {
    /// The program to run, without surrounding quotes.
    pub program: String,
    /// The arguments.
    pub args: Vec<String>,
    /// Whether this is an MSI uninstall (`msiexec /X {GUID}`).
    pub is_msi: bool,
    /// The MSI product code, braces included.
    pub msi_code: Option<String>,
    /// The command as given, trimmed.
    pub raw: String,
}

/// The value of a `ParsedCommand`.
pub struct ParsedCommandView {
    pub program: Seq<char>,
    pub args: Seq<Seq<char>>,
    pub is_msi: bool,
    pub msi_code: Option<Seq<char>>,
    pub raw: Seq<char>,
}

impl View for ParsedCommand {
    type V = ParsedCommandView;

    open spec fn view(&self) -> ParsedCommandView {
        ParsedCommandView {
            program: self.program@,
            args: string_views(self.args@),
            is_msi: self.is_msi,
            msi_code: opt_view(self.msi_code),
            raw: self.raw@,
        }
    }
}

/// What running an uninstaller came to.
#[derive(Clone, Debug)]
pub struct UninstallOutcome {
    /// `finished`, `failed` or `timed_out`.
    pub status: String,
    /// Process id of the uninstaller.
    pub pid: Option<u32>,
    /// Exit code, when the process ended with one.
    pub exit_code: Option<i32>,
    /// Message for the user.
    pub message: String,
    /// Seconds waited.
    pub waited_secs: u64,
}

/// Index of the first `c` in `s`.
pub open spec fn index_of(s: Seq<char>, c: char) -> Option<int>
    decreases s.len(),
{
    if s.len() == 0 {
        None
    } else if s[0] == c {
        Some(0)
    } else {
        match index_of(s.drop_first(), c) {
            Some(i) => Some(i + 1),
            None => None,
        }
    }
}

/// What `str::split(c)` yields: the pieces between occurrences of `c`,
/// empty pieces included.
pub open spec fn split_char(s: Seq<char>, c: char) -> Seq<Seq<char>>
    decreases s.len(),
{
    if s.len() == 0 {
        seq![Seq::empty()]
    } else {
        let p = split_char(s.drop_last(), c);
        if s.last() == c {
            p.push(Seq::empty())
        } else {
            p.update(p.len() - 1, p.last().push(s.last()))
        }
    }
}

/// `inner` splits at `-` into exactly five non-empty parts.
pub open spec fn guid_shaped(inner: Seq<char>) -> bool {
    let parts = split_char(inner, '-');
    parts.len() == 5 && forall|i: int| 0 <= i < 5 ==> (#[trigger] parts[i]).len() > 0
}

/// The MSI product code found in `s`: the text from the first `{` to the
/// first `}`, when that `}` comes after the `{` and the text between them
/// (after stripping braces at both ends) has five non-empty `-`-separated parts.
pub open spec fn msi_guid(s: Seq<char>) -> Option<Seq<char>> {
    match (index_of(s, '{'), index_of(s, '}')) {
        (Some(a), Some(b)) => {
            if b <= a {
                None
            } else {
                let g = s.subrange(a, b + 1);
                if guid_shaped(trim_char(trim_char(g, '{'), '}')) {
                    Some(g)
                } else {
                    None
                }
            }
        },
        _ => None,
    }
}

proof fn lemma_index_of_at(s: Seq<char>, c: char, i: int)
    requires
        0 <= i <= s.len(),
        forall|k: int| 0 <= k < i ==> #[trigger] s[k] != c,
    ensures
        i < s.len() && s[i] == c ==> index_of(s, c) == Some(i),
        i == s.len() ==> index_of(s, c) is None,
    decreases i,
{
    if i > 0 {
        let t = s.drop_first();
        assert forall|k: int| 0 <= k < i - 1 implies #[trigger] t[k] != c by {
            assert(t[k] == s[k + 1]);
        }
        lemma_index_of_at(t, c, i - 1);
    }
}

fn find_char(v: &Vec<char>, c: char) -> (r: Option<usize>)
    ensures
        match r {
            Some(i) => i < v.len() && index_of(v@, c) == Some(i as int),
            None => index_of(v@, c) is None,
        },
{
    let mut i: usize = 0;
    while i < v.len()
        invariant
            i <= v.len(),
            forall|k: int| 0 <= k < i ==> #[trigger] v@[k] != c,
        decreases v.len() - i,
    {
        if v[i] == c {
            proof {
                lemma_index_of_at(v@, c, i as int);
            }
            return Some(i);
        }
        i += 1;
    }
    proof {
        lemma_index_of_at(v@, c, i as int);
    }
    None
}

fn split_at_char(v: &Vec<char>, c: char) -> (r: Vec<Vec<char>>)
    ensures
        views_of(r@) == split_char(v@, c),
{
    let mut parts: Vec<Vec<char>> = Vec::new();
    let mut cur: Vec<char> = Vec::new();
    let mut i: usize = 0;
    assert(v@.take(0) == Seq::<char>::empty());
    while i < v.len()
        invariant
            i <= v.len(),
            views_of(parts@).push(cur@) == split_char(v@.take(i as int), c),
        decreases v.len() - i,
    {
        let ghost before = views_of(parts@).push(cur@);
        assert(v@.take(i + 1).drop_last() == v@.take(i as int));
        assert(v@.take(i + 1).last() == v@[i as int]);
        if v[i] == c {
            let w = cur;
            parts.push(w);
            cur = Vec::new();
            assert(views_of(parts@).push(cur@) == before.push(Seq::empty()));
        } else {
            cur.push(v[i]);
            assert(views_of(parts@).push(cur@) == before.update(
                before.len() - 1,
                before.last().push(v@[i as int]),
            ));
        }
        i += 1;
    }
    assert(v@.take(v.len() as int) == v@);
    let w = cur;
    parts.push(w);
    parts
}

fn all_nonempty(parts: &Vec<Vec<char>>) -> (r: bool)
    ensures
        r == forall|j: int| 0 <= j < parts.len() ==> (#[trigger] views_of(parts@)[j]).len() > 0,
{
    let mut k: usize = 0;
    while k < parts.len()
        invariant
            k <= parts.len(),
            forall|j: int| 0 <= j < k ==> (#[trigger] views_of(parts@)[j]).len() > 0,
        decreases parts.len() - k,
    {
        if parts[k].len() == 0 {
            assert(views_of(parts@)[k as int].len() == 0);
            return false;
        }
        k += 1;
    }
    true
}

/// Extracts the MSI product code (`{XXXXXXXX-XXXX-XXXX-XXXX-XXXXXXXXXXXX}`) from a command.
pub fn extract_msi_guid(s: &str) -> (r: Option<String>)
    ensures
        opt_view(r) == msi_guid(s@),
{
    let v = chars_of(s);
    let start = match find_char(&v, '{') {
        Some(i) => i,
        None => return None,
    };
    let end = match find_char(&v, '}') {
        Some(i) => i,
        None => return None,
    };
    if end <= start {
        return None;
    }
    let g = sub_chars(&v, start, end + 1);
    let inner1 = trim_chars(&g, &CharClass::Exactly('{'));
    let inner = trim_chars(&inner1, &CharClass::Exactly('}'));
    let parts = split_at_char(&inner, '-');
    assert(views_of(parts@).len() == parts.len());
    if parts.len() != 5 {
        return None;
    }
    if !all_nonempty(&parts) {
        return None;
    }
    Some(string_of(g.as_slice()))
}

/// Number of `"` characters in `s`.
pub open spec fn quote_count(s: Seq<char>) -> nat
    decreases s.len(),
{
    if s.len() == 0 {
        0
    } else {
        quote_count(s.drop_last()) + if s.last() == '"' {
            1nat
        } else {
            0nat
        }
    }
}

/// The positions of `s` that hold a space or tab outside double quotes.
pub open spec fn unquoted_blanks(s: Seq<char>) -> spec_fn(int) -> bool {
    |i: int| (s[i] == ' ' || s[i] == '\t') && quote_count(s.take(i)) % 2 == 0
}

/// The words of a command line: the non-empty runs between spaces or tabs that
/// stand outside double quotes (the quotes stay in the words).
pub open spec fn command_words(s: Seq<char>) -> Seq<Seq<char>> {
    fields(s, unquoted_blanks(s))
}

/// An MSI uninstall command: it names `msiexec` and holds a product code.
pub open spec fn is_msi_command(t: Seq<char>) -> bool {
    (contains_seq(lowercase_of(t), "msiexec"@) || contains_seq(lowercase_of(t), "msiexec.exe"@))
        && msi_guid(t) is Some
}

/// The result of parsing the uninstall command `raw`.
pub open spec fn parse_spec(raw: Seq<char>) -> ParsedCommandView {
    let t = trim(raw);
    if t.len() == 0 {
        ParsedCommandView {
            program: Seq::empty(),
            args: Seq::empty(),
            is_msi: false,
            msi_code: None,
            raw: t,
        }
    } else if is_msi_command(t) {
        ParsedCommandView {
            program: "msiexec"@,
            args: seq!["/X"@, msi_guid(t)->0, "/qn"@, "/norestart"@],
            is_msi: true,
            msi_code: msi_guid(t),
            raw: t,
        }
    } else {
        let w = command_words(t);
        if w.len() == 0 {
            ParsedCommandView {
                program: Seq::empty(),
                args: Seq::empty(),
                is_msi: false,
                msi_code: None,
                raw: t,
            }
        } else {
            ParsedCommandView {
                program: trim_char(w[0], '"'),
                args: w.skip(1),
                is_msi: false,
                msi_code: None,
                raw: t,
            }
        }
    }
}

fn tokenize(v: &Vec<char>) -> (r: Vec<Vec<char>>)
    ensures
        views_of(r@) == command_words(v@),
{
    let ghost sep = unquoted_blanks(v@);
    let mut tokens: Vec<Vec<char>> = Vec::new();
    let mut token: Vec<char> = Vec::new();
    let mut in_quote = false;
    let mut i: usize = 0;
    assert(v@.take(0) == Seq::<char>::empty());
    while i < v.len()
        invariant
            i <= v.len(),
            sep == unquoted_blanks(v@),
            (views_of(tokens@), token@) == fields_state(v@, sep, i as int),
            in_quote == (quote_count(v@.take(i as int)) % 2 == 1),
        decreases v.len() - i,
    {
        let c = v[i];
        let ghost prev = views_of(tokens@);
        assert(v@.take(i + 1).drop_last() == v@.take(i as int));
        assert(v@.take(i + 1).last() == c);
        if c == '"' {
            in_quote = !in_quote;
            token.push('"');
        } else if c == ' ' || c == '\t' {
            if in_quote {
                token.push(c);
            } else if token.len() > 0 {
                let w = token;
                tokens.push(w);
                token = Vec::new();
                assert(views_of(tokens@) == prev.push(w@));
            }
        } else {
            token.push(c);
        }
        i += 1;
    }
    if token.len() > 0 {
        let ghost prev = views_of(tokens@);
        let w = token;
        tokens.push(w);
        assert(views_of(tokens@) == prev.push(w@));
    }
    tokens
}

/// Literal text as a `String`.
fn literal(s: &str) -> (r: String)
    ensures
        r@ == s@,
{
    String::from_str(s)
}

/// Parses an uninstall command into program and arguments, and recognises MSI uninstalls.
pub fn parse_uninstall_string(raw: &str) -> (r: ParsedCommand)
    ensures
        r@ == parse_spec(raw@),
{
    let trimmed = trim_str(raw);
    let t = trimmed.as_str();
    if t.is_empty() {
        let args: Vec<String> = Vec::new();
        assert(string_views(args@) =~= Seq::<Seq<char>>::empty());
        return ParsedCommand {
            program: String::new(),
            args,
            is_msi: false,
            msi_code: None,
            raw: trimmed,
        };
    }
    let lower = to_lowercase(t);
    let msi = extract_msi_guid(t);
    let lower2 = to_lowercase(t);
    if (contains_str(lower.as_str(), "msiexec") || contains_str(lower2.as_str(), "msiexec.exe"))
        && msi.is_some() {
        let code = match &msi {
            Some(g) => g.clone(),
            None => String::new(),
        };
        let mut args: Vec<String> = Vec::new();
        args.push(literal("/X"));
        args.push(code);
        args.push(literal("/qn"));
        args.push(literal("/norestart"));
        let ghost av = string_views(args@);
        assert(av =~= seq!["/X"@, msi_guid(t@)->0, "/qn"@, "/norestart"@]);
        return ParsedCommand { program: literal("msiexec"), args, is_msi: true, msi_code: msi, raw: trimmed };
    }
    let v = chars_of(t);
    let tokens = tokenize(&v);
    if tokens.len() == 0 {
        let args: Vec<String> = Vec::new();
        assert(string_views(args@) =~= Seq::<Seq<char>>::empty());
        return ParsedCommand {
            program: String::new(),
            args,
            is_msi: false,
            msi_code: None,
            raw: trimmed,
        };
    }
    let first = trim_chars(&tokens[0], &CharClass::Exactly('"'));
    assert(first@ == trim_char(views_of(tokens@)[0], '"'));
    let mut args: Vec<String> = Vec::new();
    let mut k: usize = 1;
    while k < tokens.len()
        invariant
            1 <= k <= tokens.len(),
            string_views(args@) == views_of(tokens@).subrange(1, k as int),
        decreases tokens.len() - k,
    {
        let a = string_of(tokens[k].as_slice());
        let ghost before = string_views(args@);
        args.push(a);
        assert(string_views(args@) == before.push(views_of(tokens@)[k as int]));
        assert(views_of(tokens@).subrange(1, k + 1) == views_of(tokens@).subrange(1, k as int).push(
            views_of(tokens@)[k as int],
        ));
        k += 1;
    }
    assert(views_of(tokens@).subrange(1, tokens.len() as int) == views_of(tokens@).skip(1));
    ParsedCommand {
        program: string_of(first.as_slice()),
        args,
        is_msi: false,
        msi_code: None,
        raw: trimmed,
    }
}


/// The arguments that already ask an uninstaller to run silently.
pub open spec fn silent_hints() -> Seq<Seq<char>> {
    seq!["/s"@, "/silent"@, "/quiet"@, "-silent"@, "-quiet"@, "/verysilent"@, "/qn"@, "/qb"@, "-s"@]
}

/// Some white-space separated word of `s`, lowercased, equals `h`.
pub open spec fn has_lowered_word(s: Seq<char>, h: Seq<char>) -> bool {
    exists|i: int| 0 <= i < words(s).len() && lowercase_of(#[trigger] words(s)[i]) == h
}

/// The (lowercased) joined arguments already hold a silent switch.
pub open spec fn silent_hint_present(joined: Seq<char>) -> bool {
    exists|k: int|
        0 <= k < silent_hints().len() && (has_lowered_word(joined, #[trigger] silent_hints()[k])
            || contains_seq(joined, silent_hints()[k]))
}

/// The arguments with the silent switch that suits the installer framework
/// the command looks like, unless it is an MSI command or already silent.
pub open spec fn silent_args(p: ParsedCommandView) -> Seq<Seq<char>> {
    if p.is_msi {
        p.args
    } else {
        let program_lower = lowercase_of(after_last(p.program, '\\'));
        let joined = lowercase_of(join_with(p.args, " "@));
        if silent_hint_present(joined) {
            p.args
        } else if contains_seq(joined, "innosetup"@) || contains_seq(joined, "/verysilent"@) {
            p.args + seq!["/VERYSILENT"@, "/SUPPRESSMSGBOXES"@, "/NORESTART"@]
        } else if contains_seq(joined, "nsis"@) || contains_seq(program_lower, "uninst"@) {
            p.args.push("/S"@)
        } else if contains_seq(joined, "burn"@) || contains_seq(joined, "-burn"@) {
            p.args.push("-quiet"@)
        } else {
            p.args.push("/S"@)
        }
    }
}

/// A copy of a list of strings.
pub fn clone_strings(v: &Vec<String>) -> (r: Vec<String>)
    ensures
        r@ == v@,
{
    let mut r: Vec<String> = Vec::new();
    let mut i: usize = 0;
    while i < v.len()
        invariant
            i <= v.len(),
            r@ == v@.take(i as int),
        decreases v.len() - i,
    {
        r.push(v[i].clone());
        assert(v@.take(i + 1) == v@.take(i as int).push(v@[i as int]));
        i += 1;
    }
    assert(v@.take(v.len() as int) == v@);
    r
}

/// The white-space separated words of `s`, each lowercased.
pub open spec fn lowered_words_of(s: Seq<char>) -> Seq<Seq<char>> {
    words(s).map_values(|w: Seq<char>| lowercase_of(w))
}

fn lowered_words(joined: &str) -> (r: Vec<String>)
    ensures
        string_views(r@) == lowered_words_of(joined@),
{
    let v = chars_of(joined);
    let ws = split_words(&v);
    let ghost target = lowered_words_of(joined@);
    let mut r: Vec<String> = Vec::new();
    let mut i: usize = 0;
    while i < ws.len()
        invariant
            i <= ws.len(),
            views_of(ws@) == words(joined@),
            target == lowered_words_of(joined@),
            string_views(r@) == target.take(i as int),
        decreases ws.len() - i,
    {
        let w = string_of(ws[i].as_slice());
        let l = to_lowercase(w.as_str());
        let ghost before = string_views(r@);
        r.push(l);
        assert(views_of(ws@)[i as int] == ws@[i as int]@);
        assert(string_views(r@) == before.push(l@));
        assert(target.take(i + 1) == target.take(i as int).push(target[i as int]));
        i += 1;
    }
    assert(target.take(ws.len() as int) == target);
    r
}

fn hint_in(joined: &str, lowered: &Vec<String>, h: &str) -> (r: bool)
    requires
        string_views(lowered@) == lowered_words_of(joined@),
    ensures
        r == (has_lowered_word(joined@, h@) || contains_seq(joined@, h@)),
{
    let ghost ws = words(joined@);
    assert(string_views(lowered@).len() == lowered@.len());
    assert(lowered_words_of(joined@).len() == ws.len());
    let mut i: usize = 0;
    while i < lowered.len()
        invariant
            lowered@.len() == ws.len(),
            i <= lowered.len(),
            ws == words(joined@),
            string_views(lowered@) == lowered_words_of(joined@),
            forall|j: int| 0 <= j < i ==> lowercase_of(#[trigger] ws[j]) != h@,
        decreases lowered.len() - i,
    {
        assert(string_views(lowered@)[i as int] == lowered@[i as int]@);
        assert(lowered_words_of(joined@)[i as int] == lowercase_of(ws[i as int]));
        if same_str(lowered[i].as_str(), h) {
            assert(lowercase_of(ws[i as int]) == h@);
            return true;
        }
        i += 1;
    }
    assert(!has_lowered_word(joined@, h@)) by {
        assert forall|j: int| 0 <= j < ws.len() implies lowercase_of(#[trigger] ws[j]) != h@ by {
            assert(j < i);
        }
    }
    contains_str(joined, h)
}

/// Adds the silent switch that suits the installer framework of the command
/// (Inno Setup, NSIS, WiX Burn, or `/S` otherwise), unless the command is an
/// MSI uninstall or its arguments already hold a silent switch.
pub fn append_silent_args(parsed: &ParsedCommand) -> (r: Vec<String>)
    ensures
        string_views(r@) == silent_args(parsed@),
{
    let mut args = clone_strings(&parsed.args);
    if parsed.is_msi {
        return args;
    }
    let tail = after_last_str(parsed.program.as_str(), '\\');
    let program_lower = to_lowercase(tail.as_str());
    let joined_raw = join_strings(&parsed.args, " ");
    let joined = to_lowercase(joined_raw.as_str());
    let j = joined.as_str();
    let lw = lowered_words(j);
    let present = hint_in(j, &lw, "/s") || hint_in(j, &lw, "/silent") || hint_in(j, &lw, "/quiet")
        || hint_in(j, &lw, "-silent") || hint_in(j, &lw, "-quiet") || hint_in(j, &lw, "/verysilent")
        || hint_in(j, &lw, "/qn") || hint_in(j, &lw, "/qb") || hint_in(j, &lw, "-s");
    proof {
        let hs = silent_hints();
        assert(hs[0] == "/s"@ && hs[1] == "/silent"@ && hs[2] == "/quiet"@ && hs[3] == "-silent"@
            && hs[4] == "-quiet"@ && hs[5] == "/verysilent"@ && hs[6] == "/qn"@ && hs[7] == "/qb"@
            && hs[8] == "-s"@);
        if present {
            assert(silent_hint_present(j@));
        } else {
            assert forall|k: int| 0 <= k < hs.len() implies !(has_lowered_word(j@, #[trigger] hs[k])
                || contains_seq(j@, hs[k])) by {
                if k == 0 {
                } else if k == 1 {
                } else if k == 2 {
                } else if k == 3 {
                } else if k == 4 {
                } else if k == 5 {
                } else if k == 6 {
                } else if k == 7 {
                } else {
                }
            }
        }
    }
    if present {
        return args;
    }
    let ghost a0 = string_views(args@);
    if contains_str(j, "innosetup") || contains_str(j, "/verysilent") {
        args.push(literal("/VERYSILENT"));
        args.push(literal("/SUPPRESSMSGBOXES"));
        args.push(literal("/NORESTART"));
        assert(string_views(args@) =~= a0 + seq!["/VERYSILENT"@, "/SUPPRESSMSGBOXES"@, "/NORESTART"@]);
    } else if contains_str(j, "nsis") || contains_str(program_lower.as_str(), "uninst") {
        args.push(literal("/S"));
        assert(string_views(args@) =~= a0.push("/S"@));
    } else if contains_str(j, "burn") || contains_str(j, "-burn") {
        args.push(literal("-quiet"));
        assert(string_views(args@) =~= a0.push("-quiet"@));
    } else {
        args.push(literal("/S"));
        assert(string_views(args@) =~= a0.push("/S"@));
    }
    args
}


/// The program and arguments to start for an uninstall.
pub struct UninstallerLaunch {
    /// Program to start.
    pub program: String,
    /// Its arguments.
    pub args: Vec<String>,
}

/// Where `msiexec.exe` lives under the Windows directory (`C:\Windows` when unknown).
pub open spec fn msiexec_path(system_root: Option<Seq<char>>) -> Seq<char> {
    let root = match system_root {
        Some(r) => r,
        None => "C:\\Windows"@,
    };
    root + "\\System32\\msiexec.exe"@
}

/// What to start for a parsed command: silent switches are added when `silent`
/// asks for them (not for MSI commands), and MSI commands run the system's
/// `msiexec.exe` under `system_root` (the `SystemRoot` variable, when set).
pub fn uninstaller_launch(parsed: &ParsedCommand, silent: bool, system_root: Option<String>) -> (r:
    UninstallerLaunch)
    ensures
        string_views(r.args@) == (if silent && !parsed.is_msi {
            silent_args(parsed@)
        } else {
            parsed@.args
        }),
        r.program@ == (if parsed.is_msi {
            msiexec_path(opt_view(system_root))
        } else {
            parsed.program@
        }),
{
    let args = if silent && !parsed.is_msi {
        append_silent_args(parsed)
    } else {
        clone_strings(&parsed.args)
    };
    let program = if parsed.is_msi {
        let root = match system_root {
            Some(r) => r,
            None => literal("C:\\Windows"),
        };
        concat_str(root.as_str(), "\\System32\\msiexec.exe")
    } else {
        parsed.program.clone()
    };
    UninstallerLaunch { program, args }
}

/// What polling the uninstaller process reported.
pub enum ProcessPoll {
    /// The process ended, with its exit code when it has one.
    Exited(Option<i32>),
    /// The process is still running.
    Running,
    /// Polling failed, with the error text.
    Failed(String),
}

/// What to do after a poll while waiting for the uninstaller.
#[derive(Debug)]
pub enum WaitStep {
    /// Stop waiting: whether the wait timed out, and the exit code.
    Finished { timed_out: bool, exit_code: Option<i32> },
    /// Sleep and poll again.
    Sleep,
    /// Stop with this error message.
    Failed(String),
}

/// One step of waiting for the uninstaller with a timeout: an exited process
/// finishes the wait, a running one times out once the elapsed time reaches
/// the timeout and is polled again otherwise, and a failed poll is an error.
pub fn wait_step(poll: ProcessPoll, elapsed_nanos: u128, timeout_nanos: u128) -> (r: WaitStep)
    ensures
        match poll {
            ProcessPoll::Exited(code) => r == (WaitStep::Finished { timed_out: false, exit_code: code }),
            ProcessPoll::Running => if elapsed_nanos >= timeout_nanos {
                r == (WaitStep::Finished { timed_out: true, exit_code: None })
            } else {
                r is Sleep
            },
            ProcessPoll::Failed(e) => (r matches WaitStep::Failed(m) && m@ == "等待卸载进程失败: "@
                + e@),
        },
{
    match poll {
        ProcessPoll::Exited(code) => WaitStep::Finished { timed_out: false, exit_code: code },
        ProcessPoll::Running => {
            if elapsed_nanos >= timeout_nanos {
                WaitStep::Finished { timed_out: true, exit_code: None }
            } else {
                WaitStep::Sleep
            }
        },
        ProcessPoll::Failed(e) => WaitStep::Failed(concat_str("等待卸载进程失败: ", e.as_str())),
    }
}

/// The result of ending a process tree: success, or the trimmed error output.
pub fn kill_result(success: bool, stderr_text: &str) -> (r: Result<(), String>)
    ensures
        success ==> r is Ok,
        !success ==> (r matches Err(m) && m@ == trim(stderr_text@)),
{
    if success {
        Ok(())
    } else {
        Err(trim_str(stderr_text))
    }
}


proof fn lemma_index_of_hit(s: Seq<char>, c: char)
    ensures
        index_of(s, c) matches Some(i) ==> 0 <= i < s.len() && s[i] == c,
    decreases s.len(),
{
    if s.len() > 0 && s[0] != c {
        lemma_index_of_hit(s.drop_first(), c);
    }
}

/// Parsing the recorded (trimmed) command again gives the same result.
pub proof fn lemma_parse_raw_stable(s: Seq<char>)
    ensures
        parse_spec(parse_spec(s).raw) == parse_spec(s),
{
    lemma_trim_idempotent(s, CharClass::Whitespace);
}

/// An MSI uninstall runs `msiexec /X {code} /qn /norestart`, where the code is
/// taken from the command, braces included.
pub proof fn lemma_msi_code_shape(s: Seq<char>)
    ensures
        parse_spec(s).is_msi ==> {
            &&& parse_spec(s).msi_code matches Some(g)
            &&& parse_spec(s).args == seq!["/X"@, g, "/qn"@, "/norestart"@]
            &&& g.len() >= 2 && g[0] == '{' && g.last() == '}'
            &&& contains_seq(trim(s), g)
        },
{
    let t = trim(s);
    if parse_spec(s).is_msi {
        lemma_index_of_hit(t, '{');
        lemma_index_of_hit(t, '}');
        let a = index_of(t, '{')->0;
        let b = index_of(t, '}')->0;
        let g = t.subrange(a, b + 1);
        assert(g[0] == t[a]);
        assert(g.last() == t[b]);
        assert(occurs_at(t, g, a));
    }
}

/// Outside MSI commands, no parsed argument is empty.
pub proof fn lemma_args_nonempty(s: Seq<char>)
    ensures
        !parse_spec(s).is_msi ==> forall|i: int|
            0 <= i < parse_spec(s).args.len() ==> (#[trigger] parse_spec(s).args[i]).len() > 0,
{
    let t = trim(s);
    if t.len() > 0 && !is_msi_command(t) {
        let w = command_words(t);
        lemma_fields_nonempty(t, unquoted_blanks(t));
        if w.len() > 0 {
            assert forall|i: int| 0 <= i < parse_spec(s).args.len() implies (#[trigger] parse_spec(
                s,
            ).args[i]).len() > 0 by {
                assert(parse_spec(s).args[i] == w[i + 1]);
            }
        }
    }
}

/// Adding silent switches keeps the given arguments first and adds at most
/// three; an MSI command is left as it is.
pub proof fn lemma_silent_args_extend(p: ParsedCommandView)
    ensures
        silent_args(p).len() >= p.args.len(),
        silent_args(p).len() <= p.args.len() + 3,
        silent_args(p).take(p.args.len() as int) == p.args,
        p.is_msi ==> silent_args(p) == p.args,
{
    let r = silent_args(p);
    assert(r.take(p.args.len() as int) =~= p.args);
}

/// Lowercasing the joined ASCII arguments with one more argument keeps what
/// the joined arguments held, and holds the new argument lowercased.
proof fn lemma_lowered_join_push(args: Seq<Seq<char>>, x: Seq<char>, n: Seq<char>)
    requires
        forall|i: int| 0 <= i < args.len() ==> is_ascii_text(#[trigger] args[i]),
        is_ascii_text(x),
    ensures
        contains_seq(lowercase_of(join_with(args.push(x), " "@)), lowercase_of(x)),
        args.len() > 0 && contains_seq(lowercase_of(join_with(args, " "@)), n) ==> contains_seq(
            lowercase_of(join_with(args.push(x), " "@)),
            n,
        ),
{
    let sp = " "@;
    assert(is_ascii_text(sp)) by {
        reveal_strlit(" ");
    }
    lemma_join_push(args, x, sp);
    if args.len() == 0 {
        assert(occurs_at(lowercase_of(x), lowercase_of(x), 0)) by {
            assert(lowercase_of(x).subrange(0, lowercase_of(x).len() as int) =~= lowercase_of(x));
        }
    } else {
        let j = join_with(args, sp);
        lemma_join_ascii(args, sp);
        lemma_ascii_lower_concat(j, sp);
        lemma_ascii_lower_concat(j + sp, x);
        let lj = lowercase_of(j);
        let lx = lowercase_of(x);
        let ls = lowercase_of(sp);
        assert(lowercase_of(j + sp + x) == lj + ls + lx);
        assert(occurs_at(lx, lx, 0)) by {
            assert(lx.subrange(0, lx.len() as int) =~= lx);
        }
        lemma_contains_within(lj + ls, lx, Seq::empty(), lx);
        assert(lj + ls + lx + Seq::<char>::empty() =~= lj + ls + lx);
        if contains_seq(lj, n) {
            lemma_contains_within(Seq::empty(), lj, ls + lx, n);
            assert(Seq::<char>::empty() + lj + (ls + lx) =~= lj + ls + lx);
        }
    }
}

/// Adding silent switches a second time adds nothing: the switches added the
/// first time count as a silent switch already (for ASCII arguments, whose
/// lowercasing goes character by character).
pub proof fn lemma_silent_args_settled(p: ParsedCommandView)
    requires
        forall|i: int| 0 <= i < p.args.len() ==> is_ascii_text(#[trigger] p.args[i]),
    ensures
        silent_args(ParsedCommandView { args: silent_args(p), ..p }) == silent_args(p),
{
    let q = ParsedCommandView { args: silent_args(p), ..p };
    if p.is_msi {
    } else {
        let joined = lowercase_of(join_with(p.args, " "@));
        let program_lower = lowercase_of(after_last(p.program, '\\'));
        let hs = silent_hints();
        if silent_hint_present(joined) {
            assert(q == p);
        } else {
            reveal_strlit("/S");
            reveal_strlit("/s");
            reveal_strlit("-quiet");
            reveal_strlit("/VERYSILENT");
            reveal_strlit("/verysilent");
            reveal_strlit("/SUPPRESSMSGBOXES");
            reveal_strlit("/NORESTART");
            let lq = lowercase_of(join_with(q.args, " "@));
            if contains_seq(joined, "innosetup"@) || contains_seq(joined, "/verysilent"@) {
                let v = "/VERYSILENT"@;
                let a1 = p.args.push(v);
                let a2 = a1.push("/SUPPRESSMSGBOXES"@);
                assert(q.args =~= a2.push("/NORESTART"@));
                assert(is_ascii_text(v));
                assert(is_ascii_text("/SUPPRESSMSGBOXES"@));
                assert(is_ascii_text("/NORESTART"@));
                lemma_lowered_join_push(p.args, v, "/verysilent"@);
                assert forall|i: int| 0 <= i < a1.len() implies is_ascii_text(#[trigger] a1[i]) by {
                    if i < p.args.len() {
                        assert(a1[i] == p.args[i]);
                    }
                }
                assert(lowercase_of(v) =~= "/verysilent"@);
                lemma_lowered_join_push(a1, "/SUPPRESSMSGBOXES"@, "/verysilent"@);
                assert forall|i: int| 0 <= i < a2.len() implies is_ascii_text(#[trigger] a2[i]) by {
                    if i < a1.len() {
                        assert(a2[i] == a1[i]);
                    }
                }
                lemma_lowered_join_push(a2, "/NORESTART"@, "/verysilent"@);
                assert(contains_seq(lq, hs[5]));
            } else if contains_seq(joined, "nsis"@) || contains_seq(program_lower, "uninst"@) {
                assert(is_ascii_text("/S"@));
                lemma_lowered_join_push(p.args, "/S"@, "/s"@);
                assert(lowercase_of("/S"@) =~= "/s"@);
                assert(contains_seq(lq, hs[0]));
            } else if contains_seq(joined, "burn"@) || contains_seq(joined, "-burn"@) {
                assert(is_ascii_text("-quiet"@));
                lemma_lowered_join_push(p.args, "-quiet"@, "-quiet"@);
                assert(lowercase_of("-quiet"@) =~= "-quiet"@);
                assert(contains_seq(lq, hs[4]));
            } else {
                assert(is_ascii_text("/S"@));
                lemma_lowered_join_push(p.args, "/S"@, "/s"@);
                assert(lowercase_of("/S"@) =~= "/s"@);
                assert(contains_seq(lq, hs[0]));
            }
            assert(silent_hint_present(lq));
        }
    }
}

/// A command that names `msiexec` (in any case) and holds a product code is
/// an MSI uninstall: it becomes `msiexec /X <code> /qn /norestart`, whatever
/// else the command said; a command without a product code never is one.
pub proof fn lemma_msi_uninstall(raw: Seq<char>)
    ensures
        contains_seq(lowercase_of(trim(raw)), "msiexec"@) && msi_guid(trim(raw)) is Some ==> {
            let g = msi_guid(trim(raw))->0;
            &&& parse_spec(raw).is_msi
            &&& parse_spec(raw).program == "msiexec"@
            &&& parse_spec(raw).args == seq!["/X"@, g, "/qn"@, "/norestart"@]
            &&& parse_spec(raw).msi_code == Some(g)
            &&& parse_spec(raw).raw == trim(raw)
        },
        msi_guid(trim(raw)) is None ==> !parse_spec(raw).is_msi && parse_spec(raw).msi_code is None,
{
    if msi_guid(trim(raw)) is Some {
        assert(trim(raw).len() > 0) by {
            if trim(raw).len() == 0 {
                assert(index_of(trim(raw), '{') is None);
            }
        }
    }
}

/// The product code found in a command is the text from its first `{` to
/// its first `}`: it starts with `{`, ends with `}`, and occurs in the command.
pub proof fn lemma_msi_guid_braced(s: Seq<char>)
    ensures
        msi_guid(s) matches Some(g) ==> g.len() >= 2 && g[0] == '{' && g.last() == '}' && contains_seq(s, g),
{
    if let Some(g) = msi_guid(s) {
        let a = index_of(s, '{')->0;
        let b = index_of(s, '}')->0;
        lemma_index_of_found(s, '{');
        lemma_index_of_found(s, '}');
        assert(occurs_at(s, g, a));
    }
}

proof fn lemma_index_of_found(s: Seq<char>, c: char)
    ensures
        index_of(s, c) matches Some(i) ==> 0 <= i < s.len() && s[i] == c,
    decreases s.len(),
{
    if s.len() > 0 && s[0] != c {
        lemma_index_of_found(s.drop_first(), c);
    }
}

/// Arguments that already hold a silent switch are left as they are: where
/// the lowercased, space-joined arguments contain `/s`, `/silent`, `/quiet`,
/// `-silent`, `-quiet`, `/verysilent`, `/qn`, `/qb` or `-s`, nothing is added.
pub proof fn lemma_silent_switch_kept(p: ParsedCommandView)
    ensures
        ({
            let j = lowercase_of(join_with(p.args, " "@));
            contains_seq(j, "/s"@) || contains_seq(j, "/silent"@) || contains_seq(j, "/quiet"@)
                || contains_seq(j, "-silent"@) || contains_seq(j, "-quiet"@) || contains_seq(
                j,
                "/verysilent"@,
            ) || contains_seq(j, "/qn"@) || contains_seq(j, "/qb"@) || contains_seq(j, "-s"@)
        }) ==> silent_args(p) == p.args,
{
    let j = lowercase_of(join_with(p.args, " "@));
    let hs = silent_hints();
    assert(hs[0] == "/s"@ && hs[1] == "/silent"@ && hs[2] == "/quiet"@ && hs[3] == "-silent"@
        && hs[4] == "-quiet"@ && hs[5] == "/verysilent"@ && hs[6] == "/qn"@ && hs[7] == "/qb"@
        && hs[8] == "-s"@);
    if contains_seq(j, hs[0]) || contains_seq(j, hs[1]) || contains_seq(j, hs[2]) || contains_seq(j, hs[3])
        || contains_seq(j, hs[4]) || contains_seq(j, hs[5]) || contains_seq(j, hs[6]) || contains_seq(j, hs[7])
        || contains_seq(j, hs[8]) {
        assert(silent_hint_present(j));
    }
}

/// A command that is not MSI and holds no silent switch gets at least one
/// switch added after its arguments.
pub proof fn lemma_silent_switch_added(p: ParsedCommandView)
    ensures
        !p.is_msi && !silent_hint_present(lowercase_of(join_with(p.args, " "@))) ==> silent_args(p).len()
            > p.args.len() && silent_args(p).take(p.args.len() as int) == p.args,
{
    assert(silent_args(p).take(p.args.len() as int) =~= p.args);
}

/// Which switch is added to a command that is not MSI and holds no silent
/// switch: Inno Setup (`innosetup` in the lowercased arguments) gets
/// `/VERYSILENT /SUPPRESSMSGBOXES /NORESTART`; otherwise NSIS (`nsis` in the
/// arguments, or `uninst` in the lowercased program file name) gets `/S`;
/// otherwise WiX Burn (`burn` in the arguments) gets `-quiet`; anything else
/// gets `/S`.
pub proof fn lemma_silent_switch_choice(p: ParsedCommandView)
    ensures
        ({
            let j = lowercase_of(join_with(p.args, " "@));
            let prog = lowercase_of(after_last(p.program, '\\'));
            !p.is_msi && !silent_hint_present(j) ==> {
                &&& (contains_seq(j, "innosetup"@) ==> silent_args(p) == p.args + seq![
                    "/VERYSILENT"@,
                    "/SUPPRESSMSGBOXES"@,
                    "/NORESTART"@,
                ])
                &&& (!contains_seq(j, "innosetup"@) && !contains_seq(j, "/verysilent"@) && (contains_seq(
                    j,
                    "nsis"@,
                ) || contains_seq(prog, "uninst"@)) ==> silent_args(p) == p.args.push("/S"@))
                &&& (!contains_seq(j, "innosetup"@) && !contains_seq(j, "/verysilent"@) && !contains_seq(
                    j,
                    "nsis"@,
                ) && !contains_seq(prog, "uninst"@) && contains_seq(j, "burn"@) ==> silent_args(p)
                    == p.args.push("-quiet"@))
                &&& (!contains_seq(j, "innosetup"@) && !contains_seq(j, "/verysilent"@) && !contains_seq(
                    j,
                    "nsis"@,
                ) && !contains_seq(prog, "uninst"@) && !contains_seq(j, "burn"@) && !contains_seq(
                    j,
                    "-burn"@,
                ) ==> silent_args(p) == p.args.push("/S"@))
            }
        }),
{
}

} // verus!
