//! Plain configuration values with their defaults; reading and watching
//! configuration files is the caller's business.
use vstd::prelude::*;

verus! {

/// The status-bar module's configuration.
pub struct WaybarConfig {
    /// `overdue_today`, `all` or `today_only`.
    pub tooltip_scope: String,
}

/// The default tooltip scope.
pub fn default_tooltip_scope() -> (r: String)
    ensures
        r@ == "overdue_today"@,
{
    "overdue_today".to_owned()
}

impl Default for WaybarConfig {
    fn default() -> (r: Self)
        ensures
            r.tooltip_scope@ == "overdue_today"@,
    {
        WaybarConfig { tooltip_scope: default_tooltip_scope() }
    }
}

/// General interface configuration.
pub struct GeneralConfig {
    pub default_view: String,
    pub theme: String,
}

/// The default view filter.
pub fn default_view() -> (r: String)
    ensures
        r@ == "today"@,
{
    "today".to_owned()
}

/// The default theme name.
pub fn default_theme() -> (r: String)
    ensures
        r@ == "omarchy"@,
{
    "omarchy".to_owned()
}

impl Default for GeneralConfig {
    fn default() -> (r: Self)
        ensures
            r.default_view@ == "today"@,
            r.theme@ == "omarchy"@,
    {
        GeneralConfig { default_view: default_view(), theme: default_theme() }
    }
}

} // verus!
