//! User configuration: the padding of the document and the theme's overrides.
use vstd::prelude::*;

use crate::mapper::{Mapper, StyledMapper};
use crate::style::{TermColor, Theme as StyleTheme, default_blockquote_color};

verus! {

/// How the document is laid out in the screen's width.
#[derive(Debug, Clone, Copy, PartialEq, Eq, Structural)]
pub enum PaddingConfig {
    /// No padding: the document takes the whole width.
    Full,
    /// The document is centered, at most this wide.
    Centered(u16),
}

impl Default for PaddingConfig {
    fn default() -> (p: PaddingConfig)
        ensures
            p == PaddingConfig::Centered(100),
    {
        PaddingConfig::Centered(100)
    }
}

/// The width of the document on a screen `screen_width` wide: all of it, or at most the
/// centered width.
pub open spec fn padded_width(p: PaddingConfig, screen_width: u16) -> u16 {
    match p {
        PaddingConfig::Full => screen_width,
        PaddingConfig::Centered(m) => if screen_width <= m { screen_width } else { m },
    }
}

/// The document never takes more than the screen's width, and never more than a centered
/// width.
pub proof fn padding_fits_the_screen(p: PaddingConfig, screen_width: u16)
    ensures
        padded_width(p, screen_width) <= screen_width,
        p matches PaddingConfig::Centered(m) ==> padded_width(p, screen_width) <= m,
{
}

impl PaddingConfig {
    /// The width of the document on a screen `screen_width` wide.
    pub fn calculate_width(&self, screen_width: u16) -> (w: u16)
        ensures
            w == padded_width(*self, screen_width),
    {
        match self {
            PaddingConfig::Full => screen_width,
            PaddingConfig::Centered(width) => if screen_width <= *width { screen_width } else { *width },
        }
    }

    /// The padding on each side of the document in an area `area_width` wide: none without
    /// padding; centered, half of what the area has beyond the centered width, rounded down.
    pub fn block_padding(&self, area_width: u16) -> (p: u16)
        ensures
            p == match *self {
                PaddingConfig::Full => 0,
                PaddingConfig::Centered(m) => if area_width >= m { ((area_width - m) / 2) as u16 } else { 0 },
            },
            2 * p + padded_width(*self, area_width) <= area_width,
    {
        match self {
            PaddingConfig::Full => 0,
            PaddingConfig::Centered(width) => match area_width.checked_sub(*width) {
                Some(rest) => rest / 2,
                None => 0,
            },
        }
    }

    /// The height of the document on a screen `screen_height` high: all of it.
    pub fn calculate_height(&self, screen_height: u16) -> (h: u16)
        ensures
            h == screen_height,
    {
        match self {
            PaddingConfig::Full | PaddingConfig::Centered(_) => screen_height,
        }
    }
}

/// The theme of the configuration file: every symbol and color is optional, and falls back
/// to those of [`StyledMapper`] and of the default theme.
#[derive(Debug, Clone)]
pub struct Theme {
    pub blockquote_bar: Option<String>,
    pub link_desc_open: Option<String>,
    pub link_desc_close: Option<String>,
    pub link_url_open: Option<String>,
    pub link_url_close: Option<String>,
    pub horizontal_rule_char: Option<String>,
    pub task_checked_mark: Option<String>,
    pub blockquote_colors: Option<Vec<TermColor>>,
    pub link_bg: Option<TermColor>,
    pub link_fg: Option<TermColor>,
    pub prefix_color: Option<TermColor>,
    pub emphasis_color: Option<TermColor>,
    pub code_bg: Option<TermColor>,
    pub code_fg: Option<TermColor>,
    pub hr_color: Option<TermColor>,
    pub table_border_color: Option<TermColor>,
    pub table_header_color: Option<TermColor>,
}

/// The theme that configures nothing: every symbol and color falls back.
pub open spec fn unset_theme() -> Theme {
    Theme { blockquote_bar: None, link_desc_open: None, link_desc_close: None, link_url_open: None, link_url_close: None, horizontal_rule_char: None, task_checked_mark: None, blockquote_colors: None, link_bg: None, link_fg: None, prefix_color: None, emphasis_color: None, code_bg: None, code_fg: None, hr_color: None, table_border_color: None, table_header_color: None }
}

impl Default for Theme {
    fn default() -> (t: Theme)
        ensures
            t == unset_theme(),
    {
        Theme { blockquote_bar: None, link_desc_open: None, link_desc_close: None, link_url_open: None, link_url_close: None, horizontal_rule_char: None, task_checked_mark: None, blockquote_colors: None, link_bg: None, link_fg: None, prefix_color: None, emphasis_color: None, code_bg: None, code_fg: None, hr_color: None, table_border_color: None, table_header_color: None }
    }
}

/// The graphics protocol to force for images, instead of the one that is detected.
#[derive(Debug, Clone, Copy, PartialEq, Eq, Structural)]
pub enum ProtocolType {
    Halfblocks,
    Sixel,
    Kitty,
    Iterm2,
}

/// The configuration file: every setting is optional.
#[derive(Debug, Clone)]
pub struct UserConfig {
    pub font_family: Option<String>,
    pub padding: Option<PaddingConfig>,
    pub max_image_height: Option<u16>,
    pub watch_debounce_milliseconds: Option<u64>,
    pub enable_mouse_capture: Option<bool>,
    pub debug_override_protocol_type: Option<ProtocolType>,
    pub theme: Option<Theme>,
}

/// The configuration used throughout the program.
#[derive(Debug, Clone)]
pub struct Config {
    pub padding: PaddingConfig,
    pub max_image_height: u16,
    pub watch_debounce_milliseconds: u64,
    pub enable_mouse_capture: bool,
    pub debug_override_protocol_type: Option<ProtocolType>,
    pub theme: Theme,
}

/// The configuration of a configuration file: what it sets, else the defaults (centered in
/// 100 columns, images at most 30 lines high, 100 ms of debounce, no mouse capture, the
/// detected protocol and the unset theme).
pub open spec fn config_of(uc: UserConfig) -> Config {
    Config {
        padding: match uc.padding { Some(p) => p, None => PaddingConfig::Centered(100) },
        max_image_height: match uc.max_image_height { Some(h) => h, None => 30 },
        watch_debounce_milliseconds: match uc.watch_debounce_milliseconds { Some(m) => m, None => 100 },
        enable_mouse_capture: match uc.enable_mouse_capture { Some(b) => b, None => false },
        debug_override_protocol_type: uc.debug_override_protocol_type,
        theme: match uc.theme { Some(t) => t, None => unset_theme() },
    }
}

impl From<UserConfig> for Config {
    fn from(uc: UserConfig) -> (c: Config) {
        Config {
            padding: match uc.padding { Some(p) => p, None => PaddingConfig::default() },
            max_image_height: match uc.max_image_height { Some(h) => h, None => 30 },
            watch_debounce_milliseconds: match uc.watch_debounce_milliseconds { Some(m) => m, None => 100 },
            enable_mouse_capture: match uc.enable_mouse_capture { Some(b) => b, None => false },
            debug_override_protocol_type: uc.debug_override_protocol_type,
            theme: match uc.theme { Some(t) => t, None => Theme::default() },
        }
    }
}

impl vstd::std_specs::convert::FromSpecImpl<UserConfig> for Config {
    open spec fn obeys_from_spec() -> bool {
        true
    }

    open spec fn from_spec(v: UserConfig) -> Config {
        config_of(v)
    }
}

/// A configured color, or the fallback.
fn or_color(c: Option<TermColor>, fallback: TermColor) -> (r: TermColor)
    ensures
        r == match c {
            Some(x) => x,
            None => fallback,
        },
{
    match c {
        Some(x) => x,
        None => fallback,
    }
}

/// The blockquote color at a depth: the configured colors in turn, else the default ones.
pub open spec fn configured_blockquote_color(t: Theme, depth: usize) -> TermColor {
    match t.blockquote_colors {
        Some(v) => if v@.len() > 0 { v@[(depth as int) % (v@.len() as int)] } else { default_blockquote_color(depth) },
        None => default_blockquote_color(depth),
    }
}

impl Theme {
    /// The blockquote color at a depth: the configured colors in turn, else the default ones.
    pub fn blockquote_color_at(&self, depth: usize) -> (c: TermColor)
        ensures
            c == configured_blockquote_color(*self, depth),
    {
        match &self.blockquote_colors {
            Some(colors) => {
                if colors.len() > 0 {
                    return colors[depth % colors.len()];
                }
            },
            None => {},
        }
        let k = depth % 6;
        if k == 0 { TermColor::Indexed(202) } else if k == 1 { TermColor::Indexed(203) } else if k == 2 { TermColor::Indexed(204) }
        else if k == 3 { TermColor::Indexed(205) } else if k == 4 { TermColor::Indexed(206) } else { TermColor::Indexed(207) }
    }
}

impl Mapper for Theme {
    fn blockquote_bar(&self) -> (r: &str)
        ensures
            r@ == match self.blockquote_bar {
                Some(s) => s@,
                None => "▌ "@,
            },
    {
        match &self.blockquote_bar {
            Some(s) => s.as_str(),
            None => StyledMapper.blockquote_bar(),
        }
    }

    fn link_desc_open(&self) -> (r: &str)
        ensures
            r@ == match self.link_desc_open {
                Some(s) => s@,
                None => "["@,
            },
    {
        match &self.link_desc_open {
            Some(s) => s.as_str(),
            None => StyledMapper.link_desc_open(),
        }
    }

    fn link_desc_close(&self) -> (r: &str)
        ensures
            r@ == match self.link_desc_close {
                Some(s) => s@,
                None => "]"@,
            },
    {
        match &self.link_desc_close {
            Some(s) => s.as_str(),
            None => StyledMapper.link_desc_close(),
        }
    }

    fn link_url_open(&self) -> (r: &str)
        ensures
            r@ == match self.link_url_open {
                Some(s) => s@,
                None => "("@,
            },
    {
        match &self.link_url_open {
            Some(s) => s.as_str(),
            None => StyledMapper.link_url_open(),
        }
    }

    fn link_url_close(&self) -> (r: &str)
        ensures
            r@ == match self.link_url_close {
                Some(s) => s@,
                None => ")"@,
            },
    {
        match &self.link_url_close {
            Some(s) => s.as_str(),
            None => StyledMapper.link_url_close(),
        }
    }

    fn horizontal_rule_char(&self) -> (r: &str)
        ensures
            r@ == match self.horizontal_rule_char {
                Some(s) => s@,
                None => "─"@,
            },
    {
        match &self.horizontal_rule_char {
            Some(s) => s.as_str(),
            None => StyledMapper.horizontal_rule_char(),
        }
    }

    fn task_checked(&self) -> (r: &str)
        ensures
            r@ == match self.task_checked_mark {
                Some(s) => s@,
                None => "[✓] "@,
            },
    {
        match &self.task_checked_mark {
            Some(s) => s.as_str(),
            None => StyledMapper.task_checked(),
        }
    }

    fn table_vertical(&self) -> (r: &str)
        ensures
            r@ == "│"@,
    {
        StyledMapper.table_vertical()
    }

    fn table_horizontal(&self) -> (r: &str)
        ensures
            r@ == "─"@,
    {
        StyledMapper.table_horizontal()
    }

    fn table_top_left(&self) -> (r: &str)
        ensures
            r@ == "┌"@,
    {
        StyledMapper.table_top_left()
    }

    fn table_top_right(&self) -> (r: &str)
        ensures
            r@ == "┐"@,
    {
        StyledMapper.table_top_right()
    }

    fn table_bottom_left(&self) -> (r: &str)
        ensures
            r@ == "└"@,
    {
        StyledMapper.table_bottom_left()
    }

    fn table_bottom_right(&self) -> (r: &str)
        ensures
            r@ == "┘"@,
    {
        StyledMapper.table_bottom_right()
    }

    fn table_top_junction(&self) -> (r: &str)
        ensures
            r@ == "┬"@,
    {
        StyledMapper.table_top_junction()
    }

    fn table_bottom_junction(&self) -> (r: &str)
        ensures
            r@ == "┴"@,
    {
        StyledMapper.table_bottom_junction()
    }

    fn table_left_junction(&self) -> (r: &str)
        ensures
            r@ == "├"@,
    {
        StyledMapper.table_left_junction()
    }

    fn table_right_junction(&self) -> (r: &str)
        ensures
            r@ == "┤"@,
    {
        StyledMapper.table_right_junction()
    }

    fn table_cross(&self) -> (r: &str)
        ensures
            r@ == "┼"@,
    {
        StyledMapper.table_cross()
    }

    fn emphasis_open(&self) -> (r: &str)
        ensures
            r@ == ""@,
    {
        StyledMapper.emphasis_open()
    }

    fn emphasis_close(&self) -> (r: &str)
        ensures
            r@ == ""@,
    {
        StyledMapper.emphasis_close()
    }

    fn strong_open(&self) -> (r: &str)
        ensures
            r@ == ""@,
    {
        StyledMapper.strong_open()
    }

    fn strong_close(&self) -> (r: &str)
        ensures
            r@ == ""@,
    {
        StyledMapper.strong_close()
    }

    fn code_open(&self) -> (r: &str)
        ensures
            r@ == ""@,
    {
        StyledMapper.code_open()
    }

    fn code_close(&self) -> (r: &str)
        ensures
            r@ == ""@,
    {
        StyledMapper.code_close()
    }

    fn strikethrough_open(&self) -> (r: &str)
        ensures
            r@ == ""@,
    {
        StyledMapper.strikethrough_open()
    }

    fn strikethrough_close(&self) -> (r: &str)
        ensures
            r@ == ""@,
    {
        StyledMapper.strikethrough_close()
    }
}

impl StyleTheme for Theme {
    fn blockquote_color(&self, depth: usize) -> (r: TermColor)
        ensures
            r == configured_blockquote_color(*self, depth),
    {
        self.blockquote_color_at(depth)
    }

    fn link_bg(&self) -> (r: TermColor)
        ensures
            r == match self.link_bg {
                Some(c) => c,
                None => TermColor::Indexed(237),
            },
    {
        or_color(self.link_bg, TermColor::Indexed(237))
    }

    fn link_fg(&self) -> (r: TermColor)
        ensures
            r == match self.link_fg {
                Some(c) => c,
                None => TermColor::Indexed(4),
            },
    {
        or_color(self.link_fg, TermColor::Indexed(4))
    }

    fn prefix_color(&self) -> (r: TermColor)
        ensures
            r == match self.prefix_color {
                Some(c) => c,
                None => TermColor::Indexed(222),
            },
    {
        or_color(self.prefix_color, TermColor::Indexed(222))
    }

    fn emphasis_color(&self) -> (r: TermColor)
        ensures
            r == match self.emphasis_color {
                Some(c) => c,
                None => TermColor::Indexed(220),
            },
    {
        or_color(self.emphasis_color, TermColor::Indexed(220))
    }

    fn code_bg(&self) -> (r: TermColor)
        ensures
            r == match self.code_bg {
                Some(c) => c,
                None => TermColor::Indexed(236),
            },
    {
        or_color(self.code_bg, TermColor::Indexed(236))
    }

    fn code_fg(&self) -> (r: TermColor)
        ensures
            r == match self.code_fg {
                Some(c) => c,
                None => TermColor::Indexed(203),
            },
    {
        or_color(self.code_fg, TermColor::Indexed(203))
    }

    fn hr_color(&self) -> (r: TermColor)
        ensures
            r == match self.hr_color {
                Some(c) => c,
                None => TermColor::Indexed(240),
            },
    {
        or_color(self.hr_color, TermColor::Indexed(240))
    }

    fn table_border_color(&self) -> (r: TermColor)
        ensures
            r == match self.table_border_color {
                Some(c) => c,
                None => TermColor::Indexed(240),
            },
    {
        or_color(self.table_border_color, TermColor::Indexed(240))
    }

    fn table_header_color(&self) -> (r: TermColor)
        ensures
            r == match self.table_header_color {
                Some(c) => c,
                None => TermColor::Indexed(255),
            },
    {
        or_color(self.table_header_color, TermColor::Indexed(255))
    }
}

} // verus!
