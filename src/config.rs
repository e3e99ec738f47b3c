//! Per-crate settings of a run, and their consistency with the crate list.
use vstd::prelude::*;
use vstd::string::StringExecFns;

verus! {

#[verifier::external_type_specification]
#[verifier::external_body]
pub struct ExRegex(regex::Regex);

/// The text is a well-formed TOML document: it parses, and no key is defined
/// twice within a table.
pub uninterp spec fn is_toml_document(text: Seq<char>) -> bool;

/// Relies on `toml::from_str` into a `toml::Value`, which succeeds exactly on
/// a well-formed TOML document; its error is kept as its message.
#[verifier::external_body]
fn parse_toml_document(text: &str) -> (r: Result<(), String>)
    ensures
        r is Ok <==> is_toml_document(text@),
{
    match toml::from_str::<toml::Value>(text) {
        Ok(_) => Ok(()),
        Err(e) => Err(e.to_string()),
    }
}

/// Settings that apply to one crate or repository.
#[derive(Clone, Copy, PartialEq, Eq, Structural, Debug)]
pub struct CrateConfig {
    pub skip: bool,
    pub skip_tests: bool,
    pub quiet: bool,
    pub update_lockfile: bool,
    pub broken: bool,
}

/// A crate published on the registry.
#[derive(Clone, Debug)]
pub struct RegistryCrate {
    pub name: String,
    pub version: String,
}

/// A repository hosted on GitHub.
#[derive(Clone, Debug)]
pub struct GitHubRepo {
    pub org: String,
    pub name: String,
}

/// `org/name`, the usual short form of a repository.
pub open spec fn slug_of(org: Seq<char>, name: Seq<char>) -> Seq<char> {
    org + seq!['/'] + name
}

impl GitHubRepo {
    /// The repository as `org/name`.
    pub fn slug(&self) -> (r: String)
        ensures
            r@ == slug_of(self.org@, self.name@),
    {
        proof {
            reveal_strlit("/");
        }
        let r = self.org.clone().concat("/").concat(self.name.as_str());
        assert("/"@ =~= seq!['/']);
        r
    }
}

/// A crate that a run can test.
#[derive(Clone, Debug)]
pub enum Crate {
    Registry(RegistryCrate),
    GitHub(GitHubRepo),
    /// A crate in a local directory, given by its path.
    Local(String),
}

/// Who may command the bot, and how it labels pull requests.
pub struct ServerConfig {
    pub bot_acl: Vec<String>,
    pub labels: ServerLabels,
}

pub struct ServerLabels {
    pub remove: regex::Regex,
    pub experiment_queued: String,
    pub experiment_completed: String,
}

/// The crates and repositories of a demonstration run.
#[derive(Clone, Debug)]
pub struct DemoCrates {
    pub crates: Vec<String>,
    pub github_repos: Vec<String>,
}

/// An amount of memory.
#[derive(Clone, Copy, PartialEq, Eq, Structural, Debug)]
pub enum Size {
    Bytes(usize),
    Kilobytes(usize),
    Megabytes(usize),
    Gigabytes(usize),
    Terabytes(usize),
}

/// The value of a run of decimal digits.
pub open spec fn digits_value(s: Seq<u8>) -> int
    decreases s.len(),
{
    if s.len() == 0 {
        0
    } else {
        digits_value(s.drop_last()) * 10 + (s.last() - 48)
    }
}

pub open spec fn is_digit(b: u8) -> bool {
    48 <= b <= 57
}

/// The size that a unit letter gives to an amount.
pub open spec fn with_unit(unit: u8, amount: usize) -> Option<Size> {
    if unit == 66 {
        Some(Size::Bytes(amount))
    } else if unit == 75 {
        Some(Size::Kilobytes(amount))
    } else if unit == 77 {
        Some(Size::Megabytes(amount))
    } else if unit == 71 {
        Some(Size::Gigabytes(amount))
    } else if unit == 84 {
        Some(Size::Terabytes(amount))
    } else {
        None
    }
}

/// Every byte is a decimal digit.
pub open spec fn all_digits(s: Seq<u8>) -> bool {
    forall|i: int| 0 <= i < s.len() ==> is_digit(#[trigger] s[i])
}

/// The text of a size without its unit letter.
pub open spec fn amount_text(s: Seq<u8>) -> Seq<u8> {
    if s.len() > 0 && !is_digit(s.last()) {
        s.drop_last()
    } else {
        s
    }
}

/// A size written as decimal digits and an optional unit letter (`B`, `K`,
/// `M`, `G` or `T`; bytes without one), as in `2G`.
pub open spec fn size_spec(s: Seq<u8>) -> Option<Size> {
    if s.len() == 0 {
        None
    } else {
        let digits = amount_text(s);
        if digits.len() == 0 || !all_digits(digits) {
            None
        } else if digits_value(digits) > usize::MAX {
            None
        } else if !is_digit(s.last()) {
            with_unit(s.last(), digits_value(digits) as usize)
        } else {
            Some(Size::Bytes(digits_value(digits) as usize))
        }
    }
}

impl Size {
    /// Reads a size such as `2G` from its text.
    pub fn parse(s: &[u8]) -> (r: Option<Size>)
        ensures
            r == size_spec(s@),
    {
        if s.len() == 0 {
            return None;
        }
        let last = s[s.len() - 1];
        let suffixed = !(48 <= last && last <= 57);
        let end: usize = if suffixed { s.len() - 1 } else { s.len() };
        let ghost digits = amount_text(s@);
        assert(digits =~= s@.take(end as int));
        if end == 0 {
            return None;
        }
        let mut value: usize = 0;
        let mut i: usize = 0;
        while i < end
            invariant
                0 < end <= s.len(),
                i <= end,
                digits == s@.take(end as int),
                digits == amount_text(s@),
                forall|j: int| 0 <= j < i ==> is_digit(#[trigger] digits[j]),
                value == digits_value(digits.take(i as int)),
            decreases end - i,
        {
            let b = s[i];
            assert(digits.take(i + 1).drop_last() =~= digits.take(i as int));
            if !(48 <= b && b <= 57) {
                assert(!is_digit(digits[i as int]));
                assert(!all_digits(digits));
                return None;
            }
            let d = (b - 48) as usize;
            proof {
                lemma_digits_value_grows(digits, i as nat);
            }
            if value > (usize::MAX - d) / 10 {
                proof {
                    let m = usize::MAX as int;
                    assert(value * 10 + d > m) by (nonlinear_arith)
                        requires
                            value > (m - d) / 10,
                            0 <= d <= 9,
                            m > 9,
                    ;
                    if all_digits(digits) {
                        lemma_digits_value_prefix(digits, (i + 1) as nat);
                    }
                }
                return None;
            }
            assert(value * 10 + d <= usize::MAX) by (nonlinear_arith)
                requires
                    value <= (usize::MAX - d) / 10,
                    0 <= d <= 9,
            ;
            value = value * 10 + d;
            i = i + 1;
        }
        assert(digits.take(end as int) =~= digits);
        if suffixed {
            if last == 66 {
                Some(Size::Bytes(value))
            } else if last == 75 {
                Some(Size::Kilobytes(value))
            } else if last == 77 {
                Some(Size::Megabytes(value))
            } else if last == 71 {
                Some(Size::Gigabytes(value))
            } else if last == 84 {
                Some(Size::Terabytes(value))
            } else {
                None
            }
        } else {
            Some(Size::Bytes(value))
        }
    }
}

proof fn lemma_digits_value_grows(s: Seq<u8>, n: nat)
    requires
        n <= s.len(),
        forall|j: int| 0 <= j < n ==> is_digit(#[trigger] s[j]),
    ensures
        digits_value(s.take(n as int)) >= 0,
    decreases n,
{
    if n > 0 {
        assert(s.take(n as int).drop_last() =~= s.take(n - 1));
        lemma_digits_value_grows(s, (n - 1) as nat);
    }
}

/// A longer run of digits is worth at least as much as any prefix of it.
proof fn lemma_digits_value_prefix(s: Seq<u8>, n: nat)
    requires
        n <= s.len(),
        forall|j: int| 0 <= j < s.len() ==> is_digit(#[trigger] s[j]),
    ensures
        digits_value(s) >= digits_value(s.take(n as int)),
    decreases s.len(),
{
    if n == s.len() {
        assert(s.take(n as int) =~= s);
    } else {
        let shorter = s.drop_last();
        assert(shorter.take(n as int) =~= s.take(n as int));
        lemma_digits_value_prefix(shorter, n);
        lemma_digits_value_grows(shorter, shorter.len());
        assert(shorter.take(shorter.len() as int) =~= shorter);
    }
}

pub struct SandboxConfig {
    pub memory_limit: Size,
}

/// The settings of a run. `crates` is keyed by registry name, `github_repos`
/// by `org/name`; where a key occurs twice, its first entry counts.
pub struct Config {
    pub demo_crates: DemoCrates,
    pub crates: Vec<(String, CrateConfig)>,
    pub github_repos: Vec<(String, CrateConfig)>,
    pub server: ServerConfig,
    pub sandbox: SandboxConfig,
}

/// The settings that `table` holds under `key`: those of its first entry
/// with that key.
pub open spec fn lookup(table: Seq<(String, CrateConfig)>, key: Seq<char>) -> Option<CrateConfig>
    decreases table.len(),
{
    if table.len() == 0 {
        None
    } else if table[0].0@ == key {
        Some(table[0].1)
    } else {
        lookup(table.drop_first(), key)
    }
}

fn find(table: &Vec<(String, CrateConfig)>, key: &String) -> (r: Option<CrateConfig>)
    ensures
        r == lookup(table@, key@),
{
    let mut i: usize = 0;
    assert(table@.skip(0) =~= table@);
    while i < table.len()
        invariant
            i <= table.len(),
            lookup(table@, key@) == lookup(table@.skip(i as int), key@),
        decreases table.len() - i,
    {
        assert(table@.skip(i as int).drop_first() =~= table@.skip(i + 1));
        if table[i].0 == *key {
            return Some(table[i].1);
        }
        i = i + 1;
    }
    None
}

/// A configuration names crates or repositories that the crate list lacks.
#[derive(Clone, Debug, PartialEq, Eq)]
pub struct BadConfig {
    /// The missing keys, in the order the configuration lists them.
    pub missing: Vec<String>,
}

/// `crates` holds a registry crate named `key` or, where `repos` is set, a
/// GitHub repository whose slug is `key`.
pub open spec fn listed(crates: Seq<Crate>, key: Seq<char>, repos: bool) -> bool {
    exists|i: int|
        0 <= i < crates.len() && #[trigger] matches_key(crates[i], key, repos)
}

pub open spec fn matches_key(c: Crate, key: Seq<char>, repos: bool) -> bool {
    match c {
        Crate::Registry(details) => !repos && details.name@ == key,
        Crate::GitHub(repo) => repos && slug_of(repo.org@, repo.name@) == key,
        Crate::Local(_) => false,
    }
}

/// The keys of `table` that `crates` does not list, in order.
pub open spec fn missing_keys(table: Seq<(String, CrateConfig)>, crates: Seq<Crate>, repos: bool) -> Seq<
    Seq<char>,
>
    decreases table.len(),
{
    if table.len() == 0 {
        Seq::empty()
    } else {
        let rest = missing_keys(table.drop_last(), crates, repos);
        let key = table.last().0@;
        if listed(crates, key, repos) {
            rest
        } else {
            rest.push(key)
        }
    }
}

fn is_listed(crates: &[Crate], key: &String, repos: bool) -> (r: bool)
    ensures
        r == listed(crates@, key@, repos),
{
    let mut i: usize = 0;
    while i < crates.len()
        invariant
            i <= crates.len(),
            forall|j: int| 0 <= j < i ==> !#[trigger] matches_key(crates@[j], key@, repos),
        decreases crates.len() - i,
    {
        let found = match &crates[i] {
            Crate::Registry(details) => !repos && details.name == *key,
            Crate::GitHub(repo) => repos && repo.slug() == *key,
            Crate::Local(_) => false,
        };
        if found {
            assert(matches_key(crates@[i as int], key@, repos));
            return true;
        }
        i = i + 1;
    }
    false
}

fn collect_missing(table: &Vec<(String, CrateConfig)>, crates: &[Crate], repos: bool) -> (r: Vec<String>)
    ensures
        r.deep_view() == missing_keys(table@, crates@, repos),
{
    let mut missing: Vec<String> = Vec::new();
    let mut i: usize = 0;
    assert(missing.deep_view() =~= missing_keys(table@.take(0), crates@, repos));
    while i < table.len()
        invariant
            i <= table.len(),
            missing.deep_view() == missing_keys(table@.take(i as int), crates@, repos),
        decreases table.len() - i,
    {
        let ghost before = missing.deep_view();
        assert(table@.take(i + 1).drop_last() =~= table@.take(i as int));
        if !is_listed(crates, &table[i].0, repos) {
            missing.push(table[i].0.clone());
            assert(missing.deep_view() =~= before.push(table@[i as int].0@));
        }
        i = i + 1;
    }
    assert(table@.take(table.len() as int) =~= table@);
    missing
}

impl Config {
    /// The settings that apply to crate `c`, if the configuration has any.
    pub open spec fn config_for(&self, c: Crate) -> Option<CrateConfig> {
        match c {
            Crate::Registry(details) => lookup(self.crates@, details.name@),
            Crate::GitHub(repo) => lookup(self.github_repos@, slug_of(repo.org@, repo.name@)),
            Crate::Local(_) => None,
        }
    }

    fn crate_config(&self, c: &Crate) -> (r: Option<CrateConfig>)
        ensures
            r == self.config_for(*c),
    {
        match c {
            Crate::Registry(details) => find(&self.crates, &details.name),
            Crate::GitHub(repo) => find(&self.github_repos, &repo.slug()),
            Crate::Local(_) => None,
        }
    }

    pub fn should_skip(&self, c: &Crate) -> (r: bool)
        ensures
            r == (self.config_for(*c) matches Some(cc) && cc.skip),
    {
        match self.crate_config(c) {
            Some(cc) => cc.skip,
            None => false,
        }
    }

    pub fn should_skip_tests(&self, c: &Crate) -> (r: bool)
        ensures
            r == (self.config_for(*c) matches Some(cc) && cc.skip_tests),
    {
        match self.crate_config(c) {
            Some(cc) => cc.skip_tests,
            None => false,
        }
    }

    pub fn is_quiet(&self, c: &Crate) -> (r: bool)
        ensures
            r == (self.config_for(*c) matches Some(cc) && cc.quiet),
    {
        match self.crate_config(c) {
            Some(cc) => cc.quiet,
            None => false,
        }
    }

    pub fn should_update_lockfile(&self, c: &Crate) -> (r: bool)
        ensures
            r == (self.config_for(*c) matches Some(cc) && cc.update_lockfile),
    {
        match self.crate_config(c) {
            Some(cc) => cc.update_lockfile,
            None => false,
        }
    }

    pub fn is_broken(&self, c: &Crate) -> (r: bool)
        ensures
            r == (self.config_for(*c) matches Some(cc) && cc.broken),
    {
        match self.crate_config(c) {
            Some(cc) => cc.broken,
            None => false,
        }
    }

    /// Checks that a configuration text is a well-formed TOML document, with
    /// no key defined twice; the error is the parser's message.
    pub fn check_for_dup_keys(buffer: &str) -> (r: Result<(), String>)
        ensures
            r is Ok <==> is_toml_document(buffer@),
    {
        parse_toml_document(buffer)
    }

    /// Checks that every crate the configuration names is in `crates`.
    pub fn check_for_missing_crates(&self, crates: &[Crate]) -> (r: Result<(), BadConfig>)
        ensures
            r is Ok <==> missing_keys(self.crates@, crates@, false).len() == 0,
            r matches Err(e) ==> e.missing.deep_view() == missing_keys(self.crates@, crates@, false),
    {
        let missing = collect_missing(&self.crates, crates, false);
        if missing.len() == 0 {
            Ok(())
        } else {
            Err(BadConfig { missing })
        }
    }

    /// Checks that every GitHub repository the configuration names is in
    /// `crates`.
    pub fn check_for_missing_repos(&self, crates: &[Crate]) -> (r: Result<(), BadConfig>)
        ensures
            r is Ok <==> missing_keys(self.github_repos@, crates@, true).len() == 0,
            r matches Err(e) ==> e.missing.deep_view() == missing_keys(
                self.github_repos@,
                crates@,
                true,
            ),
    {
        let missing = collect_missing(&self.github_repos, crates, true);
        if missing.len() == 0 {
            Ok(())
        } else {
            Err(BadConfig { missing })
        }
    }

    pub fn demo_crates(&self) -> (r: &DemoCrates)
        ensures
            r == &self.demo_crates,
    {
        &self.demo_crates
    }
}

} // verus!
