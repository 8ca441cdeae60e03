//! Notification settings as plain values, and the per-application rules
//! looked up in them.
use vstd::prelude::*;
use vstd::string::StringExecFns;

verus! {

/// Identifier of the settings store.
pub const ID: &'static str = "com.system76.CosmicNotifications";

/// Where notifications appear on screen.
#[derive(Debug, Clone, Copy, PartialEq, Eq, Hash, Structural)]
pub enum Anchor {
    Top,
    Bottom,
    Right,
    Left,
    TopLeft,
    TopRight,
    BottomLeft,
    BottomRight,
}

impl Default for Anchor {
    fn default() -> (r: Anchor)
        ensures
            r == Anchor::Top,
    {
        Anchor::Top
    }
}

/// How notifications are grouped.
#[derive(Debug, Clone, Copy, PartialEq, Eq, Hash, Structural)]
pub enum GroupingMode {
    /// No grouping - show each notification individually
    NoGrouping,
    /// Group notifications by app_name
    ByApp,
    /// Group notifications by category hint
    ByCategory,
}

impl Default for GroupingMode {
    fn default() -> (r: GroupingMode)
        ensures
            r == GroupingMode::NoGrouping,
    {
        GroupingMode::NoGrouping
    }
}

/// Settings for the notifications of one application.
#[derive(Debug, Clone, PartialEq, Eq, Hash)]
pub struct AppRule {
    /// The app_name to match (from notification)
    pub app_name: String,
    /// Optional desktop entry to match (more specific)
    pub desktop_entry: Option<String>,
    /// Whether notifications from this app are enabled
    pub enabled: bool,
    /// Override the urgency level (0=low, 1=normal, 2=critical)
    pub urgency_override: Option<u8>,
    /// Whether sounds are enabled for this app
    pub sound_enabled: bool,
    /// Override timeout in milliseconds
    pub timeout_override: Option<u32>,
}

impl Default for AppRule {
    fn default() -> (r: AppRule)
        ensures
            r.app_name@ == Seq::<char>::empty(),
            r.desktop_entry is None,
            r.enabled,
            r.urgency_override is None,
            r.sound_enabled,
            r.timeout_override is None,
    {
        AppRule {
            app_name: String::new(),
            desktop_entry: None,
            enabled: true,
            urgency_override: None,
            sound_enabled: true,
            timeout_override: None,
        }
    }
}

/// The notification settings.
#[derive(Debug, Clone, PartialEq, Eq)]
pub struct NotificationsConfig {
    pub do_not_disturb: bool,
    pub anchor: Anchor,
    /// The maximum number of notifications that can be displayed at once.
    pub max_notifications: u32,
    /// The maximum number of notifications that can be displayed per app if not urgent and constrained by `max_notifications`.
    pub max_per_app: u32,
    /// Max time in milliseconds a critical notification can be displayed before being removed.
    pub max_timeout_urgent: Option<u32>,
    /// Max time in milliseconds a normal notification can be displayed before being removed.
    pub max_timeout_normal: Option<u32>,
    /// Max time in milliseconds a low priority notification can be displayed before being removed.
    pub max_timeout_low: Option<u32>,
    /// Whether to display images in notifications
    pub show_images: bool,
    /// Whether to display action buttons in notifications
    pub show_actions: bool,
    /// Maximum width/height for notification images in pixels
    pub max_image_size: u32,
    /// Whether links in notification body are clickable
    pub enable_links: bool,
    /// Whether animated images play and card animations are enabled
    pub enable_animations: bool,
    /// Per-application notification rules
    pub app_rules: Vec<AppRule>,
    /// How to group notifications
    pub grouping_mode: GroupingMode,
    /// Maximum notifications per group before collapsing
    pub max_per_group: u32,
    /// Whether to show group count badge (e.g., "Firefox (3)")
    pub show_group_count: bool,
}

/// The default of a flag that an older settings file may lack.
pub fn default_true() -> (r: bool)
    ensures
        r,
{
    true
}

/// The default largest image side, in pixels.
pub fn default_max_image_size() -> (r: u32)
    ensures
        r == 128,
{
    128
}

/// The default number of notifications shown per group.
pub fn default_max_per_group() -> (r: u32)
    ensures
        r == 3,
{
    3
}

impl Default for NotificationsConfig {
    fn default() -> (r: NotificationsConfig)
        ensures
            !r.do_not_disturb,
            r.anchor == Anchor::Top,
            r.max_notifications == 3,
            r.max_per_app == 2,
            r.max_timeout_urgent is None,
            r.max_timeout_normal == Some(5000u32),
            r.max_timeout_low == Some(3000u32),
            r.show_images,
            r.show_actions,
            r.max_image_size == 128,
            r.enable_links,
            r.enable_animations,
            r.app_rules@.len() == 0,
            r.grouping_mode == GroupingMode::NoGrouping,
            r.max_per_group == 3,
            r.show_group_count,
    {
        NotificationsConfig {
            do_not_disturb: false,
            anchor: Anchor::default(),
            max_notifications: 3,
            max_per_app: 2,
            max_timeout_urgent: None,
            max_timeout_normal: Some(5000),
            max_timeout_low: Some(3000),
            show_images: default_true(),
            show_actions: default_true(),
            max_image_size: default_max_image_size(),
            enable_links: default_true(),
            enable_animations: default_true(),
            app_rules: Vec::new(),
            grouping_mode: GroupingMode::default(),
            max_per_group: default_max_per_group(),
            show_group_count: default_true(),
        }
    }
}

/// The rule is for the desktop entry `entry`.
pub open spec fn matches_entry(r: AppRule, entry: Seq<char>) -> bool {
    r.desktop_entry matches Some(d) && d@ == entry
}

/// The rule is for the application `name`, with no desktop entry.
pub open spec fn matches_name(r: AppRule, name: Seq<char>) -> bool {
    r.app_name@ == name && r.desktop_entry is None
}

/// Index of the first rule from `i` on for the desktop entry `entry`.
pub open spec fn entry_rule_from(rules: Seq<AppRule>, entry: Seq<char>, i: int) -> Option<int>
    decreases rules.len() - i,
{
    if i < 0 || i >= rules.len() {
        None
    } else if matches_entry(rules[i], entry) {
        Some(i)
    } else {
        entry_rule_from(rules, entry, i + 1)
    }
}

/// Index of the first rule from `i` on for the application `name` without
/// a desktop entry.
pub open spec fn name_rule_from(rules: Seq<AppRule>, name: Seq<char>, i: int) -> Option<int>
    decreases rules.len() - i,
{
    if i < 0 || i >= rules.len() {
        None
    } else if matches_name(rules[i], name) {
        Some(i)
    } else {
        name_rule_from(rules, name, i + 1)
    }
}

/// Index of the rule that applies: the first for the desktop entry, where
/// one is given and a rule names it; else the first for the application
/// name that names no desktop entry.
pub open spec fn app_rule_index(rules: Seq<AppRule>, name: Seq<char>, entry: Option<Seq<char>>) -> Option<int> {
    match entry {
        Some(e) => match entry_rule_from(rules, e, 0) {
            Some(i) => Some(i),
            None => name_rule_from(rules, name, 0),
        },
        None => name_rule_from(rules, name, 0),
    }
}

pub open spec fn entry_view(o: Option<&str>) -> Option<Seq<char>> {
    match o {
        Some(s) => Some(s@),
        None => None,
    }
}

impl NotificationsConfig {
    /// The index of the rule for the given application, as
    /// `app_rule_index` says.
    fn app_rule_position(&self, app_name: &str, desktop_entry: Option<&str>) -> (r: Option<usize>)
        ensures
            match r {
                Some(i) => app_rule_index(self.app_rules@, app_name@, entry_view(desktop_entry))
                    == Some(i as int) && i < self.app_rules@.len(),
                None => app_rule_index(self.app_rules@, app_name@, entry_view(desktop_entry)) is None,
            },
    {
        if let Some(entry) = desktop_entry {
            let e = String::from_str(entry);
            let mut i: usize = 0;
            while i < self.app_rules.len()
                invariant
                    i <= self.app_rules@.len(),
                    e@ == entry@,
                    desktop_entry == Some(entry),
                    entry_rule_from(self.app_rules@, entry@, 0) == entry_rule_from(self.app_rules@, entry@, i as int),
                decreases self.app_rules@.len() - i,
            {
                let hit = match &self.app_rules[i].desktop_entry {
                    Some(d) => *d == e,
                    None => false,
                };
                if hit {
                    assert(matches_entry(self.app_rules@[i as int], entry@));
                    return Some(i);
                }
                i = i + 1;
            }
            assert(entry_rule_from(self.app_rules@, entry@, 0) is None);
        }
        assert(app_rule_index(self.app_rules@, app_name@, entry_view(desktop_entry)) == name_rule_from(
            self.app_rules@,
            app_name@,
            0,
        ));
        let name = String::from_str(app_name);
        let mut i: usize = 0;
        while i < self.app_rules.len()
            invariant
                i <= self.app_rules@.len(),
                name@ == app_name@,
                app_rule_index(self.app_rules@, app_name@, entry_view(desktop_entry)) == name_rule_from(
                    self.app_rules@,
                    app_name@,
                    0,
                ),
                name_rule_from(self.app_rules@, app_name@, 0) == name_rule_from(self.app_rules@, app_name@, i as int),
            decreases self.app_rules@.len() - i,
        {
            if self.app_rules[i].app_name == name && self.app_rules[i].desktop_entry.is_none() {
                assert(matches_name(self.app_rules@[i as int], app_name@));
                return Some(i);
            }
            i = i + 1;
        }
        None
    }

    /// Finds the rule for the given application: the first naming the
    /// desktop entry, where one is given and some rule names it; else the
    /// first naming `app_name` with no desktop entry.
    pub fn find_app_rule(&self, app_name: &str, desktop_entry: Option<&str>) -> (r: Option<&AppRule>)
        ensures
            match r {
                Some(rule) => app_rule_index(self.app_rules@, app_name@, entry_view(desktop_entry))
                    matches Some(i) && *rule == self.app_rules@[i],
                None => app_rule_index(self.app_rules@, app_name@, entry_view(desktop_entry)) is None,
            },
    {
        match self.app_rule_position(app_name, desktop_entry) {
            Some(i) => Some(&self.app_rules[i]),
            None => None,
        }
    }

    /// Whether notifications are enabled for the application: its rule's
    /// flag, or true where no rule applies.
    pub fn is_app_enabled(&self, app_name: &str, desktop_entry: Option<&str>) -> (r: bool)
        ensures
            r == match app_rule_index(self.app_rules@, app_name@, entry_view(desktop_entry)) {
                Some(i) => self.app_rules@[i].enabled,
                None => true,
            },
    {
        match self.find_app_rule(app_name, desktop_entry) {
            Some(rule) => rule.enabled,
            None => true,
        }
    }

    /// Whether sounds are enabled for the application: its rule's flag, or
    /// true where no rule applies.
    pub fn is_sound_enabled_for_app(&self, app_name: &str, desktop_entry: Option<&str>) -> (r: bool)
        ensures
            r == match app_rule_index(self.app_rules@, app_name@, entry_view(desktop_entry)) {
                Some(i) => self.app_rules@[i].sound_enabled,
                None => true,
            },
    {
        match self.find_app_rule(app_name, desktop_entry) {
            Some(rule) => rule.sound_enabled,
            None => true,
        }
    }
}

} // verus!
