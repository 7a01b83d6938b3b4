use vstd::prelude::*;
use crate::dates::{parse_time_bound, time_bound};
use crate::glob::{fold_case, folded_chars};
use crate::sftp_downloader::DownloadOptions;
use crate::text::{chars_of, decimal, decimal_string, push_char};
use vstd::string::StringSliceAdditionalSpecFns;

verus! {

/// Command-line arguments. Every field is optional so that a config file can supply it.
#[derive(Debug)]
pub struct Args {
    /// Load parameters from a config file (auto-detected by extension: toml/json/yaml/yml).
    pub config: Option<String>,
    /// SSH server hostname or IP address
    pub host: Option<String>,
    /// SSH server port
    pub port: Option<u16>,
    /// SSH username
    pub user: Option<String>,
    /// Password for authentication
    pub password: Option<String>,
    /// Private key file path for authentication
    pub key: Option<String>,
    /// Passphrase for encrypted private key
    pub key_passphrase: Option<String>,
    /// Connection timeout in seconds
    pub timeout: Option<u64>,
    /// Remote file or directory path on the server
    pub remote: Option<String>,
    /// Local destination path
    pub local: Option<String>,
    /// Skip existing files (default: overwrite)
    pub skip: Option<bool>,
    /// Resume partial download (file only)
    pub resume: Option<bool>,
    /// Maximum parallel downloads for directory
    pub parallel: Option<usize>,
    /// Exclude files whose name matches a glob (repeatable)
    pub exclude: Option<Vec<String>>,
    /// Only download files whose name matches a glob (repeatable)
    pub include_patterns: Option<Vec<String>>,
    /// Case-insensitive include/exclude matching
    pub ignore_case: Option<bool>,
    /// Only download files modified at or after this date
    pub since: Option<String>,
    /// Only download files modified at or before this date
    pub until: Option<String>,
    /// Only download the N most recently modified files
    pub latest: Option<usize>,
}

/// Config file content. All fields optional to allow partial configs.
#[derive(Debug)]
pub struct FileConfig {
    pub host: Option<String>,
    pub port: Option<u16>,
    pub user: Option<String>,
    pub password: Option<String>,
    pub key: Option<String>,
    pub key_passphrase: Option<String>,
    pub timeout: Option<u64>,
    pub remote: Option<String>,
    pub local: Option<String>,
    pub skip: Option<bool>,
    pub resume: Option<bool>,
    pub parallel: Option<usize>,
    pub exclude: Option<Vec<String>>,
    pub include_patterns: Option<Vec<String>>,
    pub ignore_case: Option<bool>,
    pub since: Option<String>,
    pub until: Option<String>,
    pub latest: Option<usize>,
}

impl Default for FileConfig {
    fn default() -> (r: Self)
        ensures
            r.host is None && r.port is None && r.user is None && r.password is None,
            r.key is None && r.key_passphrase is None && r.timeout is None,
            r.remote is None && r.local is None && r.skip is None && r.resume is None,
            r.parallel is None && r.exclude is None && r.include_patterns is None,
            r.ignore_case is None && r.since is None && r.until is None && r.latest is None,
    {
        FileConfig {
            host: None,
            port: None,
            user: None,
            password: None,
            key: None,
            key_passphrase: None,
            timeout: None,
            remote: None,
            local: None,
            skip: None,
            resume: None,
            parallel: None,
            exclude: None,
            include_patterns: None,
            ignore_case: None,
            since: None,
            until: None,
            latest: None,
        }
    }
}

/// Fully resolved parameters after merging CLI, env, config file, and defaults.
#[derive(Debug)]
pub struct ResolvedArgs {
    pub host: String,
    pub port: u16,
    pub user: String,
    pub password: Option<String>,
    pub key: Option<String>,
    pub key_passphrase: Option<String>,
    pub timeout: u64,
    pub remote: String,
    pub local: String,
    pub skip: bool,
    pub resume: bool,
    pub parallel: usize,
    pub exclude: Vec<String>,
    pub include_patterns: Vec<String>,
    pub ignore_case: bool,
    pub since: Option<String>,
    pub until: Option<String>,
    pub latest: Option<usize>,
}

/// Width in bytes of the UTF-8 encoding of `c`.
pub open spec fn utf8_width(c: char) -> nat {
    let v = c as u32;
    if vstd::utf8::has_width_1_encoding(v) {
        1
    } else if vstd::utf8::has_width_2_encoding(v) {
        2
    } else if vstd::utf8::has_width_3_encoding(v) {
        3
    } else {
        4
    }
}

/// Byte length of the UTF-8 encoding of `s`.
pub open spec fn utf8_len(s: Seq<char>) -> nat
    decreases s.len(),
{
    if s.len() == 0 {
        0
    } else {
        utf8_width(s[0]) + utf8_len(s.drop_first())
    }
}

/// `utf8_len` is the length of the encoding that `str::len` counts.
pub proof fn lemma_utf8_len(s: Seq<char>)
    ensures
        vstd::utf8::encode_utf8(s).len() == utf8_len(s),
    decreases s.len(),
{
    if s.len() > 0 {
        lemma_utf8_len(s.drop_first());
    }
}

/// `n` asterisks.
pub open spec fn stars(n: nat) -> Seq<char> {
    Seq::new(n, |_i: int| '*')
}

/// The mask shown for a secret: one `*` per byte, at most 8.
pub open spec fn mask_of(s: Seq<char>) -> Seq<char> {
    stars(if utf8_len(s) < 8 { utf8_len(s) } else { 8 })
}

/// Mask a secret value for safe display. Shows length as asterisks,
/// capped at 8 chars so the real length isn't leaked for long secrets.
pub fn mask_secret(s: &str) -> (r: String)
    ensures
        r@ == mask_of(s@),
        r@.len() == (if s.spec_bytes().len() < 8 { s.spec_bytes().len() } else { 8 }),
        forall|i: int| 0 <= i < r@.len() ==> #[trigger] r@[i] == '*',
{
    let c = chars_of(s);
    let mut bytes: usize = 0;
    let mut i: usize = 0;
    assert(c@.skip(0) =~= c@);
    while i < c.len() && bytes < 8
        invariant
            c@ == s@,
            i <= c@.len(),
            bytes < 8 + 4,
            bytes + utf8_len(c@.skip(i as int)) == utf8_len(c@),
        decreases c@.len() - i,
    {
        assert(c@.skip(i as int).drop_first() =~= c@.skip(i + 1));
        let v = c[i] as u32;
        if v <= 0x7f {
            bytes += 1;
        } else if v <= 0x7ff {
            bytes += 2;
        } else if v <= 0xffff && !(0xd800 <= v && v <= 0xdfff) {
            bytes += 3;
        } else {
            bytes += 4;
        }
        i += 1;
    }
    let n = if bytes < 8 { bytes } else { 8 };
    proof {
        if i >= c@.len() {
            assert(c@.skip(i as int).len() == 0);
        }
        lemma_utf8_len(s@);
    }
    let mut r = String::new();
    let mut k: usize = 0;
    while k < n
        invariant
            k <= n,
            r@ == stars(k as nat),
        decreases n - k,
    {
        push_char(&mut r, '*');
        k += 1;
        assert(r@ =~= stars(k as nat));
    }
    r
}

/// Characters that need no quoting on a command line.
pub open spec fn shell_safe(c: char) -> bool {
    ||| ('a' <= c && c <= 'z')
    ||| ('A' <= c && c <= 'Z')
    ||| ('0' <= c && c <= '9')
    ||| c == '/' || c == '\\' || c == '.' || c == '-' || c == '_' || c == ':' || c == '~'
}

/// One character inside double quotes: `\` and `"` get a backslash.
pub open spec fn escape_char(c: char) -> Seq<char> {
    if c == '\\' {
        seq!['\\', '\\']
    } else if c == '"' {
        seq!['\\', '"']
    } else {
        seq![c]
    }
}

/// The characters of `s`, each escaped for use inside double quotes.
pub open spec fn escape_body(s: Seq<char>) -> Seq<char>
    decreases s.len(),
{
    if s.len() == 0 {
        seq![]
    } else {
        escape_body(s.drop_last()) + escape_char(s.last())
    }
}

/// `s` as it appears on a printed command line.
pub open spec fn shell_escaped(s: Seq<char>) -> Seq<char> {
    if s.len() == 0 || (forall|i: int| 0 <= i < s.len() ==> #[trigger] shell_safe(s[i])) {
        s
    } else {
        seq!['"'] + escape_body(s) + seq!['"']
    }
}

/// Undo `escape_body`: a backslash followed by a backslash or a double quote stands for
/// that second character.
pub open spec fn unescape_body(t: Seq<char>) -> Seq<char>
    decreases t.len(),
{
    if t.len() == 0 {
        seq![]
    } else if t.len() >= 2 && t[0] == '\\' && (t[1] == '\\' || t[1] == '"') {
        seq![t[1]] + unescape_body(t.subrange(2, t.len() as int))
    } else {
        seq![t[0]] + unescape_body(t.subrange(1, t.len() as int))
    }
}

/// Read back a word written by `shell_escape`: unquoted text as it is, quoted text
/// without its quotes and with its escapes undone.
pub open spec fn shell_unescaped(t: Seq<char>) -> Seq<char> {
    if t.len() >= 2 && t[0] == '"' {
        unescape_body(t.subrange(1, t.len() - 1))
    } else {
        t
    }
}

proof fn lemma_escape_body_first(s: Seq<char>)
    requires
        s.len() > 0,
    ensures
        escape_body(s) == escape_char(s[0]) + escape_body(s.drop_first()),
    decreases s.len(),
{
    if s.len() == 1 {
        assert(s.drop_first() =~= Seq::<char>::empty());
        assert(s.drop_last() =~= Seq::<char>::empty());
        assert(escape_body(s) =~= escape_char(s[0]));
    } else {
        lemma_escape_body_first(s.drop_last());
        assert(s.drop_last().drop_first() =~= s.drop_first().drop_last());
        assert(s.drop_first().last() == s.last());
        assert(escape_body(s) =~= escape_char(s[0]) + escape_body(s.drop_first()));
    }
}

proof fn lemma_unescape_escape(s: Seq<char>)
    ensures
        unescape_body(escape_body(s)) == s,
    decreases s.len(),
{
    if s.len() > 0 {
        lemma_escape_body_first(s);
        lemma_unescape_escape(s.drop_first());
        let c = s[0];
        let rest = escape_body(s.drop_first());
        let t = escape_char(c) + rest;
        if c == '\\' || c == '"' {
            assert(t.subrange(2, t.len() as int) =~= rest);
        } else {
            assert(t.subrange(1, t.len() as int) =~= rest);
        }
        assert(unescape_body(t) =~= s);
    }
}

/// Reading back what `shell_escape` writes gives the text it was given.
pub proof fn law_shell_escape_round_trip(s: Seq<char>)
    ensures
        shell_unescaped(shell_escaped(s)) == s,
{
    if !(s.len() == 0 || (forall|i: int| 0 <= i < s.len() ==> #[trigger] shell_safe(s[i]))) {
        let t = seq!['"'] + escape_body(s) + seq!['"'];
        lemma_unescape_escape(s);
        assert(t.subrange(1, t.len() - 1) =~= escape_body(s));
    } else if s.len() > 0 {
        assert(shell_safe(s[0]));
    }
}

fn is_shell_safe(c: char) -> (r: bool)
    ensures
        r == shell_safe(c),
{
    ('a' <= c && c <= 'z') || ('A' <= c && c <= 'Z') || ('0' <= c && c <= '9') || c == '/' || c == '\\'
        || c == '.' || c == '-' || c == '_' || c == ':' || c == '~'
}

/// Minimal shell-style quoting: wrap in double quotes and escape embedded quotes/backslashes.
pub fn shell_escape(s: &str) -> (r: String)
    ensures
        r@ == shell_escaped(s@),
{
    let c = chars_of(s);
    let mut all_safe = true;
    let mut i: usize = 0;
    while i < c.len()
        invariant
            c@ == s@,
            i <= c@.len(),
            all_safe == (forall|k: int| 0 <= k < i ==> #[trigger] shell_safe(c@[k])),
        decreases c@.len() - i,
    {
        if !is_shell_safe(c[i]) {
            all_safe = false;
        }
        i += 1;
    }
    if c.len() == 0 || all_safe {
        return String::from_str(s);
    }
    let mut r = String::new();
    push_char(&mut r, '"');
    let mut i: usize = 0;
    while i < c.len()
        invariant
            c@ == s@,
            i <= c@.len(),
            r@ == seq!['"'] + escape_body(c@.subrange(0, i as int)),
        decreases c@.len() - i,
    {
        let ch = c[i];
        if ch == '\\' {
            push_char(&mut r, '\\');
            push_char(&mut r, '\\');
        } else if ch == '"' {
            push_char(&mut r, '\\');
            push_char(&mut r, '"');
        } else {
            push_char(&mut r, ch);
        }
        assert(c@.subrange(0, i + 1).drop_last() =~= c@.subrange(0, i as int));
        i += 1;
        assert(r@ =~= seq!['"'] + escape_body(c@.subrange(0, i as int)));
    }
    push_char(&mut r, '"');
    assert(c@.subrange(0, c@.len() as int) =~= c@);
    r
}


proof fn lemma_escape_stars(n: nat)
    ensures
        escape_body(stars(n)) == stars(n),
    decreases n,
{
    if n > 0 {
        lemma_escape_stars((n - 1) as nat);
        assert(stars(n).drop_last() =~= stars((n - 1) as nat));
        assert(stars((n - 1) as nat) + seq!['*'] =~= stars(n));
    }
}

/// A secret shows on the printed command line only as its length, capped at 8: the word
/// is the flag followed by that many `*` in double quotes (nothing for an empty secret),
/// whatever the secret's characters.
pub proof fn law_secret_shows_only_length(flag: Seq<char>, secret: String)
    ensures
        secret_word(flag, Some(secret)) == seq![flag + (if utf8_len(secret@) == 0 {
            Seq::<char>::empty()
        } else {
            seq!['"'] + mask_of(secret@) + seq!['"']
        })],
{
    let m = mask_of(secret@);
    let n = if utf8_len(secret@) < 8 { utf8_len(secret@) } else { 8 };
    lemma_escape_stars(n);
    if n > 0 {
        assert(!shell_safe(m[0]));
    } else {
        assert(m =~= Seq::<char>::empty());
    }
}

/// Words separated by single spaces.
pub open spec fn words_joined(words: Seq<Seq<char>>) -> Seq<char>
    decreases words.len(),
{
    if words.len() == 0 {
        seq![]
    } else if words.len() == 1 {
        words[0]
    } else {
        words_joined(words.drop_last()) + seq![' '] + words.last()
    }
}

/// A flag followed by a shell-escaped value.
pub open spec fn flag_value(flag: Seq<char>, value: Seq<char>) -> Seq<char> {
    flag + shell_escaped(value)
}

/// The word for an optional value: none when absent.
pub open spec fn optional_word(flag: Seq<char>, value: Option<String>) -> Seq<Seq<char>> {
    match value {
        Some(v) => seq![flag_value(flag, v@)],
        None => seq![],
    }
}

/// The word for an optional secret, masked: none when absent.
pub open spec fn secret_word(flag: Seq<char>, value: Option<String>) -> Seq<Seq<char>> {
    match value {
        Some(v) => seq![flag_value(flag, mask_of(v@))],
        None => seq![],
    }
}

/// A flag present only when `on`.
pub open spec fn switch_word(flag: Seq<char>, on: bool) -> Seq<Seq<char>> {
    if on { seq![flag] } else { seq![] }
}

/// One `flag value` word per element of `values`.
pub open spec fn repeated_words(flag: Seq<char>, values: Seq<String>) -> Seq<Seq<char>> {
    values.map_values(|v: String| flag_value(flag, v@))
}

/// The words naming the program, the server, and the credentials.
pub open spec fn connection_words(a: ResolvedArgs) -> Seq<Seq<char>> {
    seq!["sftp-download"@, flag_value("-H "@, a.host@), "-p "@ + decimal(a.port as nat), flag_value("-u "@, a.user@)]
        + secret_word("-P "@, a.password)
        + optional_word("-k "@, a.key)
        + secret_word("--key-passphrase "@, a.key_passphrase)
}

/// The words for the timeout, the two paths and the transfer mode.
pub open spec fn transfer_words(a: ResolvedArgs) -> Seq<Seq<char>> {
    seq!["--timeout "@ + decimal(a.timeout as nat), flag_value("-r "@, a.remote@), flag_value("-l "@, a.local@)]
        + switch_word("-s"@, a.skip)
        + switch_word("--resume"@, a.resume)
        + seq!["-j "@ + decimal(a.parallel as nat)]
}

/// The words for the file filters.
pub open spec fn filter_words(a: ResolvedArgs) -> Seq<Seq<char>> {
    repeated_words("-x "@, a.exclude@)
        + repeated_words("-i "@, a.include_patterns@)
        + switch_word("--ignore-case"@, a.ignore_case)
        + optional_word("--since "@, a.since)
        + optional_word("--until "@, a.until)
        + match a.latest {
            Some(n) => seq!["--latest "@ + decimal(n as nat)],
            None => seq![],
        }
}

/// The words of the command line equivalent to resolved arguments `a`.
pub open spec fn command_words(a: ResolvedArgs) -> Seq<Seq<char>> {
    connection_words(a) + transfer_words(a) + filter_words(a)
}

/// The text of each string.
pub open spec fn views(v: Seq<String>) -> Seq<Seq<char>> {
    v.map_values(|s: String| s@)
}

fn push_view(v: &mut Vec<String>, s: String)
    ensures
        views(final(v)@) == views(old(v)@).push(s@),
{
    let ghost s_view = s@;
    v.push(s);
    assert(views(v@) =~= views(old(v)@).push(s_view));
}

fn flag_word(flag: &str, value: &str) -> (w: String)
    ensures
        w@ == flag_value(flag@, value@),
{
    let mut w = String::from_str(flag);
    w.append(shell_escape(value).as_str());
    w
}

fn number_word(flag: &str, n: u64) -> (w: String)
    ensures
        w@ == flag@ + decimal(n as nat),
{
    let mut w = String::from_str(flag);
    w.append(decimal_string(n).as_str());
    w
}

fn push_optional(v: &mut Vec<String>, flag: &str, value: &Option<String>)
    ensures
        views(final(v)@) == views(old(v)@) + optional_word(flag@, *value),
{
    if let Some(x) = value {
        push_view(v, flag_word(flag, x.as_str()));
    }
    assert(views(v@) =~= views(old(v)@) + optional_word(flag@, *value));
}

fn push_secret(v: &mut Vec<String>, flag: &str, value: &Option<String>)
    ensures
        views(final(v)@) == views(old(v)@) + secret_word(flag@, *value),
{
    if let Some(x) = value {
        push_view(v, flag_word(flag, mask_secret(x.as_str()).as_str()));
    }
    assert(views(v@) =~= views(old(v)@) + secret_word(flag@, *value));
}

fn push_switch(v: &mut Vec<String>, flag: &str, on: bool)
    ensures
        views(final(v)@) == views(old(v)@) + switch_word(flag@, on),
{
    if on {
        push_view(v, String::from_str(flag));
    }
    assert(views(v@) =~= views(old(v)@) + switch_word(flag@, on));
}

fn push_repeated(v: &mut Vec<String>, flag: &str, values: &Vec<String>)
    ensures
        views(final(v)@) == views(old(v)@) + repeated_words(flag@, values@),
{
    let mut i: usize = 0;
    while i < values.len()
        invariant
            i <= values@.len(),
            views(v@) == views(old(v)@) + repeated_words(flag@, values@.subrange(0, i as int)),
        decreases values@.len() - i,
    {
        push_view(v, flag_word(flag, values[i].as_str()));
        i += 1;
        assert(views(v@) =~= views(old(v)@) + repeated_words(flag@, values@.subrange(0, i as int)));
    }
    assert(values@.subrange(0, i as int) =~= values@);
}

/// Join words with single spaces.
pub fn join_words(words: &Vec<String>) -> (r: String)
    ensures
        r@ == words_joined(views(words@)),
{
    let mut r = String::new();
    let mut i: usize = 0;
    while i < words.len()
        invariant
            i <= words@.len(),
            r@ == words_joined(views(words@.subrange(0, i as int))),
        decreases words@.len() - i,
    {
        let ghost before = views(words@.subrange(0, i as int));
        if i > 0 {
            push_char(&mut r, ' ');
        }
        r.append(words[i].as_str());
        assert(views(words@.subrange(0, i + 1)) =~= before.push(words@[i as int]@));
        assert(before.push(words@[i as int]@).drop_last() =~= before);
        i += 1;
    }
    assert(words@.subrange(0, i as int) =~= words@);
    r
}

impl ResolvedArgs {
    fn push_connection_words(&self, v: &mut Vec<String>)
        ensures
            views(final(v)@) == views(old(v)@) + connection_words(*self),
    {
        proof {
            reveal_strlit("sftp-download");
            reveal_strlit("-H ");
            reveal_strlit("-p ");
            reveal_strlit("-u ");
            reveal_strlit("-P ");
            reveal_strlit("-k ");
            reveal_strlit("--key-passphrase ");
        }
        push_view(v, String::from_str("sftp-download"));
        push_view(v, flag_word("-H ", self.host.as_str()));
        push_view(v, number_word("-p ", self.port as u64));
        push_view(v, flag_word("-u ", self.user.as_str()));
        push_secret(v, "-P ", &self.password);
        push_optional(v, "-k ", &self.key);
        push_secret(v, "--key-passphrase ", &self.key_passphrase);
        assert(views(v@) =~= views(old(v)@) + connection_words(*self));
    }

    fn push_transfer_words(&self, v: &mut Vec<String>)
        ensures
            views(final(v)@) == views(old(v)@) + transfer_words(*self),
    {
        proof {
            reveal_strlit("--timeout ");
            reveal_strlit("-r ");
            reveal_strlit("-l ");
            reveal_strlit("-s");
            reveal_strlit("--resume");
            reveal_strlit("-j ");
        }
        push_view(v, number_word("--timeout ", self.timeout));
        push_view(v, flag_word("-r ", self.remote.as_str()));
        push_view(v, flag_word("-l ", self.local.as_str()));
        push_switch(v, "-s", self.skip);
        push_switch(v, "--resume", self.resume);
        push_view(v, number_word("-j ", self.parallel as u64));
        assert(views(v@) =~= views(old(v)@) + transfer_words(*self));
    }

    fn push_filter_words(&self, v: &mut Vec<String>)
        ensures
            views(final(v)@) == views(old(v)@) + filter_words(*self),
    {
        proof {
            reveal_strlit("-x ");
            reveal_strlit("-i ");
            reveal_strlit("--ignore-case");
            reveal_strlit("--since ");
            reveal_strlit("--until ");
            reveal_strlit("--latest ");
        }
        push_repeated(v, "-x ", &self.exclude);
        push_repeated(v, "-i ", &self.include_patterns);
        push_switch(v, "--ignore-case", self.ignore_case);
        push_optional(v, "--since ", &self.since);
        push_optional(v, "--until ", &self.until);
        let ghost mid = views(v@);
        if let Some(n) = self.latest {
            push_view(v, number_word("--latest ", n as u64));
        }
        assert(views(v@) =~= mid + match self.latest {
            Some(n) => seq!["--latest "@ + decimal(n as nat)],
            None => seq![],
        });
        assert(views(v@) =~= views(old(v)@) + filter_words(*self));
    }

    /// Render the resolved parameters as an equivalent command line.
    /// Secrets (password / key_passphrase) are masked for safe logging.
    pub fn to_command_line(&self) -> (r: String)
        ensures
            r@ == words_joined(command_words(*self)),
    {
        let mut parts: Vec<String> = Vec::new();
        self.push_connection_words(&mut parts);
        self.push_transfer_words(&mut parts);
        self.push_filter_words(&mut parts);
        assert(views(parts@) =~= command_words(*self));
        join_words(&parts)
    }
}


/// How many of the optional values are present.
pub open spec fn count_present(x: bool, y: bool, z: bool) -> int {
    (if x { 1int } else { 0int }) + (if y { 1int } else { 0int }) + (if z { 1int } else { 0int })
}

proof fn lemma_connection_words_len(a: ResolvedArgs)
    ensures
        connection_words(a).len() == 4 + count_present(a.password is Some, a.key is Some, a.key_passphrase is Some),
{
    assert(secret_word("-P "@, a.password).len() == (if a.password is Some { 1int } else { 0int }));
    assert(optional_word("-k "@, a.key).len() == (if a.key is Some { 1int } else { 0int }));
    assert(secret_word("--key-passphrase "@, a.key_passphrase).len()
        == (if a.key_passphrase is Some { 1int } else { 0int }));
}

proof fn lemma_transfer_words_shape(a: ResolvedArgs)
    ensures
        transfer_words(a).len() == 4 + count_present(a.skip, a.resume, false),
        transfer_words(a).last() == "-j "@ + decimal(a.parallel as nat),
{
    assert(switch_word("-s"@, a.skip).len() == (if a.skip { 1int } else { 0int }));
    assert(switch_word("--resume"@, a.resume).len() == (if a.resume { 1int } else { 0int }));
}

proof fn lemma_filter_words_shape(a: ResolvedArgs)
    ensures
        filter_words(a).len() == a.exclude@.len() + a.include_patterns@.len()
            + count_present(a.ignore_case, a.since is Some, a.until is Some)
            + count_present(a.latest is Some, false, false),
        forall|i: int| 0 <= i < a.exclude@.len()
            ==> #[trigger] filter_words(a)[i] == "-x "@ + shell_escaped(a.exclude@[i]@),
        forall|j: int| 0 <= j < a.include_patterns@.len()
            ==> #[trigger] filter_words(a)[a.exclude@.len() + j] == "-i "@ + shell_escaped(a.include_patterns@[j]@),
{
    let xs = repeated_words("-x "@, a.exclude@);
    let is = repeated_words("-i "@, a.include_patterns@);
    let rest = switch_word("--ignore-case"@, a.ignore_case)
        + optional_word("--since "@, a.since)
        + optional_word("--until "@, a.until)
        + match a.latest {
            Some(n) => seq!["--latest "@ + decimal(n as nat)],
            None => seq![],
        };
    assert(filter_words(a) =~= xs + is + rest);
    assert(rest.len() == count_present(a.ignore_case, a.since is Some, a.until is Some)
        + count_present(a.latest is Some, false, false));
    assert forall|i: int| 0 <= i < a.exclude@.len()
        implies #[trigger] filter_words(a)[i] == "-x "@ + shell_escaped(a.exclude@[i]@) by {
        assert(filter_words(a)[i] == xs[i]);
    }
    assert forall|j: int| 0 <= j < a.include_patterns@.len()
        implies #[trigger] filter_words(a)[a.exclude@.len() + j] == "-i "@ + shell_escaped(a.include_patterns@[j]@) by {
        assert(filter_words(a)[a.exclude@.len() + j] == is[j]);
    }
}

/// In the printed command line, after the program name, the connection flags, the
/// timeout, the two paths, the transfer switches and `-j`, every exclude pattern gets a
/// `-x` word of its own, in order, and then every include pattern an `-i` word of its
/// own, in order; after them come only the remaining filter options.
pub proof fn law_every_pattern_printed(a: ResolvedArgs)
    ensures
        ({
            let w = command_words(a);
            let ex = a.exclude@;
            let inc = a.include_patterns@;
            let k = 8 + count_present(a.password is Some, a.key is Some, a.key_passphrase is Some)
                + count_present(a.skip, a.resume, false);
            &&& w.len() == k + ex.len() + inc.len()
                + count_present(a.ignore_case, a.since is Some, a.until is Some)
                + count_present(a.latest is Some, false, false)
            &&& w[k - 1] == "-j "@ + decimal(a.parallel as nat)
            &&& forall|i: int| 0 <= i < ex.len() ==> #[trigger] w[k + i] == "-x "@ + shell_escaped(ex[i]@)
            &&& forall|j: int| 0 <= j < inc.len()
                ==> #[trigger] w[k + ex.len() + j] == "-i "@ + shell_escaped(inc[j]@)
        }),
{
    let w = command_words(a);
    let cw = connection_words(a);
    let tw = transfer_words(a);
    let fw = filter_words(a);
    lemma_connection_words_len(a);
    lemma_transfer_words_shape(a);
    lemma_filter_words_shape(a);
    let k = cw.len() + tw.len();
    assert(w[k - 1] == tw.last());
    assert forall|i: int| 0 <= i < a.exclude@.len() implies #[trigger] w[k + i] == "-x "@ + shell_escaped(a.exclude@[i]@) by {
        assert(w[k + i] == fw[i]);
    }
    assert forall|j: int| 0 <= j < a.include_patterns@.len()
        implies #[trigger] w[k + a.exclude@.len() + j] == "-i "@ + shell_escaped(a.include_patterns@[j]@) by {
        assert(w[k + a.exclude@.len() + j] == fw[a.exclude@.len() + j]);
    }
}

/// Why the merged arguments cannot be used.
#[derive(Debug, Clone, Copy, PartialEq, Eq, Structural)]
pub enum ArgsError {
    /// No user from the command line, the environment or the config file.
    MissingUser,
    /// No remote path.
    MissingRemote,
    /// No local path.
    MissingLocal,
    /// `--skip` and `--resume` together.
    SkipWithResume,
    /// `--key-passphrase` without `--key`.
    PassphraseWithoutKey,
    /// `--since` is not a date (`YYYY-MM-DD` or `YYYY-MM-DD HH:MM:SS`).
    InvalidSince,
    /// `--until` is not a date.
    InvalidUntil,
}

/// The command-line value when given, else the config file's.
pub open spec fn pick<T>(cli: Option<T>, file: Option<T>) -> Option<T> {
    match cli {
        Some(v) => Some(v),
        None => file,
    }
}

fn first_of<T>(cli: Option<T>, file: Option<T>) -> (r: Option<T>)
    ensures
        r == pick(cli, file),
{
    match cli {
        Some(v) => Some(v),
        None => file,
    }
}

/// A flag's merged value, `false` when neither source gives it.
pub open spec fn flag_or_false(cli: Option<bool>, file: Option<bool>) -> bool {
    match pick(cli, file) {
        Some(b) => b,
        None => false,
    }
}

/// The first problem found with the merged arguments, checked in this order: user,
/// remote, local, `--skip` with `--resume`, passphrase without key, `--since`, `--until`.
pub open spec fn resolve_error(a: Args, c: FileConfig) -> Option<ArgsError> {
    if pick(a.user, c.user) is None {
        Some(ArgsError::MissingUser)
    } else if pick(a.remote, c.remote) is None {
        Some(ArgsError::MissingRemote)
    } else if pick(a.local, c.local) is None {
        Some(ArgsError::MissingLocal)
    } else if flag_or_false(a.skip, c.skip) && flag_or_false(a.resume, c.resume) {
        Some(ArgsError::SkipWithResume)
    } else if pick(a.key_passphrase, c.key_passphrase) is Some && pick(a.key, c.key) is None {
        Some(ArgsError::PassphraseWithoutKey)
    } else if pick(a.since, c.since) matches Some(t) && time_bound(t@, false) is None {
        Some(ArgsError::InvalidSince)
    } else if pick(a.until, c.until) matches Some(t) && time_bound(t@, true) is None {
        Some(ArgsError::InvalidUntil)
    } else {
        None
    }
}

/// `r` holds the merged arguments: the command-line value wins over the config file's,
/// which wins over the built-in default.
pub open spec fn resolved_from(a: Args, c: FileConfig, r: ResolvedArgs) -> bool {
    &&& r.host@ == (match pick(a.host, c.host) { Some(h) => h@, None => "localhost"@ })
    &&& r.port == (match pick(a.port, c.port) { Some(p) => p, None => 22 })
    &&& Some(r.user) == pick(a.user, c.user)
    &&& r.password == pick(a.password, c.password)
    &&& r.key == pick(a.key, c.key)
    &&& r.key_passphrase == pick(a.key_passphrase, c.key_passphrase)
    &&& r.timeout == (match pick(a.timeout, c.timeout) { Some(t) => t, None => 30 })
    &&& Some(r.remote) == pick(a.remote, c.remote)
    &&& Some(r.local) == pick(a.local, c.local)
    &&& r.skip == flag_or_false(a.skip, c.skip)
    &&& r.resume == flag_or_false(a.resume, c.resume)
    &&& r.parallel == (match pick(a.parallel, c.parallel) { Some(p) => p, None => 4 })
    &&& r.exclude@ == (match pick(a.exclude, c.exclude) { Some(v) => v@, None => seq![] })
    &&& r.include_patterns@ == (match pick(a.include_patterns, c.include_patterns) { Some(v) => v@, None => seq![] })
    &&& r.ignore_case == flag_or_false(a.ignore_case, c.ignore_case)
    &&& r.since == pick(a.since, c.since)
    &&& r.until == pick(a.until, c.until)
    &&& r.latest == pick(a.latest, c.latest)
}

fn flag_value_of(cli: Option<bool>, file: Option<bool>) -> (r: bool)
    ensures
        r == flag_or_false(cli, file),
{
    match first_of(cli, file) {
        Some(b) => b,
        None => false,
    }
}

fn list_of(cli: Option<Vec<String>>, file: Option<Vec<String>>) -> (r: Vec<String>)
    ensures
        r@ == (match pick(cli, file) { Some(v) => v@, None => seq![] }),
{
    match first_of(cli, file) {
        Some(v) => v,
        None => Vec::new(),
    }
}

fn date_ok(text: &Option<String>, end_of_day: bool) -> (r: bool)
    ensures
        r == !(*text matches Some(t) && time_bound(t@, end_of_day) is None),
{
    match text {
        Some(t) => parse_time_bound(t.as_str(), end_of_day).is_some(),
        None => true,
    }
}

/// Merge command-line arguments (environment variables included) with a config file.
/// Priority: CLI args > env vars > config file > built-in defaults.
pub fn resolve_args(args: Args, cfg: FileConfig) -> (r: Result<ResolvedArgs, ArgsError>)
    ensures
        match r {
            Ok(ra) => resolve_error(args, cfg) is None && resolved_from(args, cfg, ra),
            Err(e) => resolve_error(args, cfg) == Some(e),
        },
{
    let host = match first_of(args.host, cfg.host) {
        Some(h) => h,
        None => String::from_str("localhost"),
    };
    proof {
        reveal_strlit("localhost");
    }
    let port = match first_of(args.port, cfg.port) {
        Some(p) => p,
        None => 22,
    };
    let timeout = match first_of(args.timeout, cfg.timeout) {
        Some(t) => t,
        None => 30,
    };
    let parallel = match first_of(args.parallel, cfg.parallel) {
        Some(p) => p,
        None => 4,
    };
    let exclude = list_of(args.exclude, cfg.exclude);
    let include_patterns = list_of(args.include_patterns, cfg.include_patterns);
    let skip = flag_value_of(args.skip, cfg.skip);
    let resume = flag_value_of(args.resume, cfg.resume);
    let ignore_case = flag_value_of(args.ignore_case, cfg.ignore_case);
    let password = first_of(args.password, cfg.password);
    let key = first_of(args.key, cfg.key);
    let key_passphrase = first_of(args.key_passphrase, cfg.key_passphrase);
    let since = first_of(args.since, cfg.since);
    let until = first_of(args.until, cfg.until);
    let latest = first_of(args.latest, cfg.latest);

    // Required fields
    let user = match first_of(args.user, cfg.user) {
        Some(u) => u,
        None => return Err(ArgsError::MissingUser),
    };
    let remote = match first_of(args.remote, cfg.remote) {
        Some(r) => r,
        None => return Err(ArgsError::MissingRemote),
    };
    let local = match first_of(args.local, cfg.local) {
        Some(l) => l,
        None => return Err(ArgsError::MissingLocal),
    };

    // Validate conflicts.
    if skip && resume {
        return Err(ArgsError::SkipWithResume);
    }
    if key_passphrase.is_some() && key.is_none() {
        return Err(ArgsError::PassphraseWithoutKey);
    }
    if !date_ok(&since, false) {
        return Err(ArgsError::InvalidSince);
    }
    if !date_ok(&until, true) {
        return Err(ArgsError::InvalidUntil);
    }

    Ok(ResolvedArgs {
        host,
        port,
        user,
        password,
        key,
        key_passphrase,
        timeout,
        remote,
        local,
        skip,
        resume,
        parallel,
        exclude,
        include_patterns,
        ignore_case,
        since,
        until,
        latest,
    })
}

/// Each setting comes from the command line when given there; a setting the command
/// line leaves unset comes from the config file; one that neither sets takes its
/// built-in default (`localhost`, port 22, 30 s, 4 parallel downloads, switches off,
/// empty pattern lists).
pub proof fn law_command_line_then_config_then_default(a: Args, c: FileConfig, r: ResolvedArgs)
    requires
        resolved_from(a, c, r),
    ensures
        a.host matches Some(h) ==> r.host@ == h@,
        a.host is None ==> (c.host matches Some(h) ==> r.host@ == h@),
        a.host is None && c.host is None ==> r.host@ == "localhost"@,
        a.port matches Some(p) ==> r.port == p,
        a.port is None ==> (c.port matches Some(p) ==> r.port == p),
        a.port is None && c.port is None ==> r.port == 22,
        a.user is Some ==> r.user == a.user->0,
        a.user is None ==> Some(r.user) == c.user,
        a.password is Some ==> r.password == a.password,
        a.password is None ==> r.password == c.password,
        a.key is Some ==> r.key == a.key,
        a.key is None ==> r.key == c.key,
        a.key_passphrase is Some ==> r.key_passphrase == a.key_passphrase,
        a.key_passphrase is None ==> r.key_passphrase == c.key_passphrase,
        a.timeout matches Some(t) ==> r.timeout == t,
        a.timeout is None ==> (c.timeout matches Some(t) ==> r.timeout == t),
        a.timeout is None && c.timeout is None ==> r.timeout == 30,
        a.remote is Some ==> r.remote == a.remote->0,
        a.remote is None ==> Some(r.remote) == c.remote,
        a.local is Some ==> r.local == a.local->0,
        a.local is None ==> Some(r.local) == c.local,
        a.skip matches Some(b) ==> r.skip == b,
        a.skip is None ==> (c.skip matches Some(b) ==> r.skip == b),
        a.skip is None && c.skip is None ==> !r.skip,
        a.resume matches Some(b) ==> r.resume == b,
        a.resume is None ==> (c.resume matches Some(b) ==> r.resume == b),
        a.resume is None && c.resume is None ==> !r.resume,
        a.parallel matches Some(p) ==> r.parallel == p,
        a.parallel is None ==> (c.parallel matches Some(p) ==> r.parallel == p),
        a.parallel is None && c.parallel is None ==> r.parallel == 4,
        a.exclude matches Some(v) ==> r.exclude@ == v@,
        a.exclude is None ==> (c.exclude matches Some(v) ==> r.exclude@ == v@),
        a.exclude is None && c.exclude is None ==> r.exclude@.len() == 0,
        a.include_patterns matches Some(v) ==> r.include_patterns@ == v@,
        a.include_patterns is None ==> (c.include_patterns matches Some(v) ==> r.include_patterns@ == v@),
        a.include_patterns is None && c.include_patterns is None ==> r.include_patterns@.len() == 0,
        a.ignore_case matches Some(b) ==> r.ignore_case == b,
        a.ignore_case is None ==> (c.ignore_case matches Some(b) ==> r.ignore_case == b),
        a.ignore_case is None && c.ignore_case is None ==> !r.ignore_case,
        a.since is Some ==> r.since == a.since,
        a.since is None ==> r.since == c.since,
        a.until is Some ==> r.until == a.until,
        a.until is None ==> r.until == c.until,
        a.latest is Some ==> r.latest == a.latest,
        a.latest is None ==> r.latest == c.latest,
{
}

/// The time bound a date option stands for; `Err` when it is given and is no date.
pub open spec fn bound_of(text: Option<String>, end_of_day: bool) -> Result<Option<i64>, ()> {
    match text {
        None => Ok(None),
        Some(t) => match time_bound(t@, end_of_day) {
            Some(v) => if i64::MIN <= v <= i64::MAX { Ok(Some(v as i64)) } else { Err(()) },
            None => Err(()),
        },
    }
}

fn bound_value(text: &Option<String>, end_of_day: bool) -> (r: Result<Option<i64>, ()>)
    ensures
        r == bound_of(*text, end_of_day),
{
    match text {
        None => Ok(None),
        Some(t) => match parse_time_bound(t.as_str(), end_of_day) {
            Some(v) => Ok(Some(v)),
            None => Err(()),
        },
    }
}

impl ResolvedArgs {
    /// The download options these arguments ask for; `None` when `since` or `until` is
    /// not a date (never the case for arguments that `resolve_args` accepted).
    pub fn download_options(&self) -> (r: Option<DownloadOptions>)
        ensures
            match r {
                Some(o) => {
                    &&& bound_of(self.since, false) matches Ok(s) && o.since == s
                    &&& bound_of(self.until, true) matches Ok(u) && o.until == u
                    &&& o.skip_existing == self.skip
                    &&& o.resume == self.resume
                    &&& o.parallel == self.parallel
                    &&& o.exclude_patterns@ == self.exclude@
                    &&& o.include_patterns@ == self.include_patterns@
                    &&& o.ignore_case == self.ignore_case
                    &&& o.latest == self.latest
                },
                None => bound_of(self.since, false) is Err || bound_of(self.until, true) is Err,
            },
    {
        let since = match bound_value(&self.since, false) {
            Ok(s) => s,
            Err(_) => return None,
        };
        let until = match bound_value(&self.until, true) {
            Ok(u) => u,
            Err(_) => return None,
        };
        let exclude_patterns = self.exclude.clone();
        let include_patterns = self.include_patterns.clone();
        assert(exclude_patterns@ =~= self.exclude@);
        assert(include_patterns@ =~= self.include_patterns@);
        Some(DownloadOptions {
            skip_existing: self.skip,
            resume: self.resume,
            parallel: self.parallel,
            exclude_patterns,
            include_patterns,
            ignore_case: self.ignore_case,
            since,
            until,
            latest: self.latest,
        })
    }
}

/// The format of a config file.
#[derive(Debug, Clone, Copy, PartialEq, Eq, Structural)]
pub enum ConfigFormat {
    Toml,
    Json,
    Yaml,
}

/// The format a config file extension names, compared without regard to ASCII case;
/// `Err` holds the lowercased extension when it names none.
pub open spec fn format_of_extension(ext: Seq<char>) -> Result<ConfigFormat, Seq<char>> {
    let e = fold_case(ext, true);
    if e == "toml"@ {
        Ok(ConfigFormat::Toml)
    } else if e == "json"@ {
        Ok(ConfigFormat::Json)
    } else if e == "yaml"@ || e == "yml"@ {
        Ok(ConfigFormat::Yaml)
    } else {
        Err(e)
    }
}

fn same_chars(v: &Vec<char>, lit: &str) -> (r: bool)
    ensures
        r == (v@ == lit@),
{
    let w = chars_of(lit);
    if v.len() != w.len() {
        return false;
    }
    let mut i: usize = 0;
    while i < v.len()
        invariant
            v@.len() == w@.len(),
            w@ == lit@,
            i <= v@.len(),
            forall|k: int| 0 <= k < i ==> v@[k] == w@[k],
        decreases v@.len() - i,
    {
        if v[i] != w[i] {
            return false;
        }
        i += 1;
    }
    assert(v@ =~= w@);
    true
}

/// Choose the parser for a config file from its extension (`toml`, `json`, `yaml` or
/// `yml`, in any ASCII case).
pub fn config_format(ext: &str) -> (r: Result<ConfigFormat, String>)
    ensures
        r matches Ok(f) ==> format_of_extension(ext@) == Ok::<ConfigFormat, Seq<char>>(f),
        r matches Err(e) ==> format_of_extension(ext@) == Err::<ConfigFormat, Seq<char>>(e@),
{
    let e = folded_chars(ext, true);
    proof {
        reveal_strlit("toml");
        reveal_strlit("json");
        reveal_strlit("yaml");
        reveal_strlit("yml");
    }
    if same_chars(&e, "toml") {
        Ok(ConfigFormat::Toml)
    } else if same_chars(&e, "json") {
        Ok(ConfigFormat::Json)
    } else if same_chars(&e, "yaml") || same_chars(&e, "yml") {
        Ok(ConfigFormat::Yaml)
    } else {
        assert(e@.subrange(0, e@.len() as int) =~= e@);
        Err(crate::text::string_from_chars(e.as_slice(), 0, e.len()))
    }
}
} // verus!
