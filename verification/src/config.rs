//! Configuration values and their defaults.
use vstd::prelude::*;
use crate::text::chars_of;

verus! {

/// Which confidence levels are removed without asking.
#[derive(Debug, Clone, Copy, PartialEq, Eq, Structural)]
pub enum AutoConfirmLevel {
    High,
    Medium,
    Low,
    Never,
}

impl Default for AutoConfirmLevel {
    fn default() -> (r: Self)
        ensures
            r == AutoConfirmLevel::High,
    {
        AutoConfirmLevel::High
    }
}

/// Which scanners run.
#[derive(Debug, Clone, Copy, PartialEq, Eq, Structural)]
pub struct ScannersConfig {
    pub xdg_db: bool,
    pub name_heuristic: bool,
    pub pacman_orphan: bool,
}

impl Default for ScannersConfig {
    fn default() -> (r: Self)
        ensures
            r.xdg_db,
            r.name_heuristic,
            !r.pacman_orphan,
    {
        ScannersConfig { xdg_db: true, name_heuristic: true, pacman_orphan: false }
    }
}

/// The value a boolean setting takes when the file does not give it.
pub fn default_true() -> (b: bool)
    ensures
        b,
{
    true
}

/// Packages and paths that are never touched.
#[derive(Debug)]
pub struct IgnoreConfig {
    pub packages: Vec<String>,
    pub paths: Vec<String>,
}

impl Default for IgnoreConfig {
    fn default() -> (r: Self)
        ensures
            r.packages@.len() == 0,
            r.paths@.len() == 0,
    {
        IgnoreConfig { packages: Vec::new(), paths: Vec::new() }
    }
}

/// A copy of a list of strings.
pub fn copy_strings(v: &Vec<String>) -> (r: Vec<String>)
    ensures
        r@ == v@,
{
    let mut r: Vec<String> = Vec::new();
    let mut i: usize = 0;
    while i < v.len()
        invariant
            i <= v@.len(),
            r@ == v@.take(i as int),
        decreases v.len() - i,
    {
        r.push(v[i].clone());
        i += 1;
        assert(r@ =~= v@.take(i as int));
    }
    assert(v@.take(v@.len() as int) =~= v@);
    r
}

impl Clone for IgnoreConfig {
    fn clone(&self) -> (r: Self)
        ensures
            r.packages@ == self.packages@,
            r.paths@ == self.paths@,
    {
        IgnoreConfig { packages: copy_strings(&self.packages), paths: copy_strings(&self.paths) }
    }
}

/// The whole configuration.
#[derive(Debug)]
pub struct Config {
    pub auto_confirm: AutoConfirmLevel,
    pub auto_remove_orphan_deps: bool,
    pub use_trash: bool,
    pub hook_enabled: bool,
    /// Let the hook prompt on the controlling terminal instead of silently
    /// auto-confirming. Set false for unattended machines, where a prompt
    /// would block the pacman transaction with nobody there to answer.
    pub hook_prompt: bool,
    pub scan_paths_extra: Vec<String>,
    pub scanners: ScannersConfig,
    pub ignore: IgnoreConfig,
}

impl Default for Config {
    fn default() -> (r: Self)
        ensures
            r.auto_confirm == AutoConfirmLevel::High,
            !r.auto_remove_orphan_deps,
            r.use_trash,
            r.hook_enabled,
            r.hook_prompt,
            r.scan_paths_extra@.len() == 0,
            r.scanners.xdg_db,
            r.scanners.name_heuristic,
            !r.scanners.pacman_orphan,
            r.ignore.packages@.len() == 0,
            r.ignore.paths@.len() == 0,
    {
        Config {
            auto_confirm: AutoConfirmLevel::default(),
            auto_remove_orphan_deps: false,
            use_trash: true,
            hook_enabled: true,
            hook_prompt: true,
            scan_paths_extra: Vec::new(),
            scanners: ScannersConfig::default(),
            ignore: IgnoreConfig::default(),
        }
    }
}

impl Clone for Config {
    fn clone(&self) -> (r: Self)
        ensures
            r.auto_confirm == self.auto_confirm,
            r.auto_remove_orphan_deps == self.auto_remove_orphan_deps,
            r.use_trash == self.use_trash,
            r.hook_enabled == self.hook_enabled,
            r.hook_prompt == self.hook_prompt,
            r.scan_paths_extra@ == self.scan_paths_extra@,
            r.scanners == self.scanners,
            r.ignore.packages@ == self.ignore.packages@,
            r.ignore.paths@ == self.ignore.paths@,
    {
        Config {
            auto_confirm: self.auto_confirm,
            auto_remove_orphan_deps: self.auto_remove_orphan_deps,
            use_trash: self.use_trash,
            hook_enabled: self.hook_enabled,
            hook_prompt: self.hook_prompt,
            scan_paths_extra: copy_strings(&self.scan_paths_extra),
            scanners: self.scanners,
            ignore: self.ignore.clone(),
        }
    }
}

/// Combines the system configuration with the user's: the user's wins on
/// every field, so the overlay is taken whole.
pub fn merge(base: Config, overlay: Config) -> (r: Config)
    ensures
        r == overlay,
{
    overlay
}

/// Why a level name was refused.
#[derive(Debug, PartialEq, Eq)]
pub struct UnknownLevel {
    pub given: String,
}

/// Reads an auto-confirm level as given on the command line:
/// `high`, `medium`, `low` or `none`.
pub fn parse_auto_confirm_level(s: &str) -> (r: Result<AutoConfirmLevel, UnknownLevel>)
    ensures
        s@ == "high"@ ==> r == Ok::<AutoConfirmLevel, UnknownLevel>(AutoConfirmLevel::High),
        s@ == "medium"@ ==> r == Ok::<AutoConfirmLevel, UnknownLevel>(AutoConfirmLevel::Medium),
        s@ == "low"@ ==> r == Ok::<AutoConfirmLevel, UnknownLevel>(AutoConfirmLevel::Low),
        s@ == "none"@ ==> r == Ok::<AutoConfirmLevel, UnknownLevel>(AutoConfirmLevel::Never),
        (s@ != "high"@ && s@ != "medium"@ && s@ != "low"@ && s@ != "none"@) <==> r is Err,
        r matches Err(e) ==> e.given@ == s@,
{
    let c = chars_of(s);
    proof {
        reveal_strlit("high");
        reveal_strlit("medium");
        reveal_strlit("low");
        reveal_strlit("none");
        assert("high"@.len() == 4 && "medium"@.len() == 6 && "low"@.len() == 3 && "none"@.len() == 4);
        assert("high"@[0] == 'h' && "none"@[0] == 'n');
        assert("high"@ != "none"@);
        assert("high"@ != "low"@);
        assert("medium"@ != "low"@);
        assert("medium"@ != "none"@);
        assert("high"@ != "medium"@);
        assert("low"@ != "none"@);
    }
    if crate::text::chars_eq(&c, &chars_of("high")) {
        Ok(AutoConfirmLevel::High)
    } else if crate::text::chars_eq(&c, &chars_of("medium")) {
        Ok(AutoConfirmLevel::Medium)
    } else if crate::text::chars_eq(&c, &chars_of("low")) {
        Ok(AutoConfirmLevel::Low)
    } else if crate::text::chars_eq(&c, &chars_of("none")) {
        Ok(AutoConfirmLevel::Never)
    } else {
        Err(UnknownLevel { given: crate::text::string_from_chars(&c) })
    }
}

impl UnknownLevel {
    /// The message shown for the refused level.
    pub fn message(&self) -> (m: String)
        ensures
            m@ == "unknown auto-confirm level: "@ + self.given@
                + "; expected high|medium|low|none"@,
    {
        let a = crate::text::concat_chars(&chars_of("unknown auto-confirm level: "), &chars_of(self.given.as_str()));
        let b = crate::text::concat_chars(&a, &chars_of("; expected high|medium|low|none"));
        crate::text::string_from_chars(&b)
    }
}

} // verus!
