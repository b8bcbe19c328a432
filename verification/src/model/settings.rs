use vstd::prelude::*;

verus! {

/// Default auto-archive delay in days (7 days after completion).
pub const DEFAULT_AUTO_ARCHIVE_DAYS: u32 = 7;

/// User settings, stored as `settings.toml`.
#[derive(Debug, Clone)]
pub struct Settings {
    /// `"system"`, `"light"`, or `"dark"`
    pub theme_mode: String,
    /// Whether auto-archive is enabled at all.
    pub auto_archive_enabled: bool,
    /// Days after completion before a Done task becomes Archived.
    /// 0 = archive immediately upon completion (when enabled).
    pub auto_archive_days: u32,
}

/// The text `system`.
pub open spec fn system_theme() -> Seq<char> {
    seq!['s', 'y', 's', 't', 'e', 'm']
}

/// The theme mode used when none is stored: follow the system.
pub fn default_theme_mode() -> (r: String)
    ensures
        r@ == system_theme(),
{
    let s = "system";
    proof {
        reveal_strlit("system");
    }
    String::from_str(s)
}

/// Auto-archive is on unless the settings say otherwise.
pub fn default_auto_archive_enabled() -> (r: bool)
    ensures
        r,
{
    true
}

/// The auto-archive delay used when none is stored.
pub fn default_auto_archive_days() -> (r: u32)
    ensures
        r == DEFAULT_AUTO_ARCHIVE_DAYS,
{
    DEFAULT_AUTO_ARCHIVE_DAYS
}

impl Default for Settings {
    fn default() -> (r: Self)
        ensures
            r.theme_mode@ == system_theme(),
            r.auto_archive_enabled,
            r.auto_archive_days == DEFAULT_AUTO_ARCHIVE_DAYS,
    {
        Self {
            theme_mode: default_theme_mode(),
            auto_archive_enabled: default_auto_archive_enabled(),
            auto_archive_days: default_auto_archive_days(),
        }
    }
}

} // verus!
