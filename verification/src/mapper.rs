//! Decorator symbols: how markdown markers are shown in the output (blockquote bars, link
//! brackets, emphasis markers, list markers, table borders).
use vstd::prelude::*;

verus! {

/// Bullet style for unordered lists.
#[derive(Debug, Clone, Copy, PartialEq, Eq, Structural)]
pub enum BulletStyle {
    Dash,
    /// A.k.a. asterisk, `*`.
    Star,
    Plus,
}

impl BulletStyle {
    /// The character of this bullet in markdown.
    pub open spec fn spec_char(self) -> char {
        match self {
            BulletStyle::Dash => '-',
            BulletStyle::Star => '*',
            BulletStyle::Plus => '+',
        }
    }

    /// Get the character representation.
    pub fn char(&self) -> (c: char)
        ensures
            c == self.spec_char(),
    {
        match self {
            BulletStyle::Dash => '-',
            BulletStyle::Star => '*',
            BulletStyle::Plus => '+',
        }
    }

    /// Parse from a character.
    pub fn from_char(c: char) -> (b: Option<BulletStyle>)
        ensures
            match b {
                Some(s) => s.spec_char() == c,
                None => c != '-' && c != '*' && c != '+',
            },
    {
        if c == '-' {
            Some(BulletStyle::Dash)
        } else if c == '*' {
            Some(BulletStyle::Star)
        } else if c == '+' {
            Some(BulletStyle::Plus)
        } else {
            None
        }
    }
}

/// The symbols that decorate markdown content. Each method has a default that keeps the
/// markdown as it was written; implement the trait to change some of them.
pub trait Mapper {
    fn link_desc_open(&self) -> (r: &str)
        default_ensures
            r@ == "["@,
    {
        "["
    }

    fn link_desc_close(&self) -> (r: &str)
        default_ensures
            r@ == "]"@,
    {
        "]"
    }

    fn link_url_open(&self) -> (r: &str)
        default_ensures
            r@ == "("@,
    {
        "("
    }

    fn link_url_close(&self) -> (r: &str)
        default_ensures
            r@ == ")"@,
    {
        ")"
    }

    fn blockquote_bar(&self) -> (r: &str)
        default_ensures
            r@ == "> "@,
    {
        "> "
    }

    fn horizontal_rule_char(&self) -> (r: &str)
        default_ensures
            r@ == "-"@,
    {
        "-"
    }

    fn unordered_bullet(&self, bullet: BulletStyle) -> (r: &str)
        default_ensures
            r@ == match bullet {
                BulletStyle::Dash => "- "@,
                BulletStyle::Star => "* "@,
                BulletStyle::Plus => "+ "@,
            },
    {
        match bullet {
            BulletStyle::Dash => "- ",
            BulletStyle::Star => "* ",
            BulletStyle::Plus => "+ ",
        }
    }

    /// What follows the number of an ordered list item.
    fn ordered_marker_suffix(&self) -> (r: &str)
        default_ensures
            r@ == ". "@,
    {
        ". "
    }

    fn task_checked(&self) -> (r: &str)
        default_ensures
            r@ == "[x] "@,
    {
        "[x] "
    }

    fn task_unchecked(&self) -> (r: &str)
        default_ensures
            r@ == "[ ] "@,
    {
        "[ ] "
    }

    fn table_vertical(&self) -> (r: &str)
        default_ensures
            r@ == "|"@,
    {
        "|"
    }

    fn table_horizontal(&self) -> (r: &str)
        default_ensures
            r@ == "-"@,
    {
        "-"
    }

    fn table_top_left(&self) -> (r: &str)
        default_ensures
            r@ == "+"@,
    {
        "+"
    }

    fn table_top_right(&self) -> (r: &str)
        default_ensures
            r@ == "+"@,
    {
        "+"
    }

    fn table_bottom_left(&self) -> (r: &str)
        default_ensures
            r@ == "+"@,
    {
        "+"
    }

    fn table_bottom_right(&self) -> (r: &str)
        default_ensures
            r@ == "+"@,
    {
        "+"
    }

    fn table_top_junction(&self) -> (r: &str)
        default_ensures
            r@ == "+"@,
    {
        "+"
    }

    fn table_bottom_junction(&self) -> (r: &str)
        default_ensures
            r@ == "+"@,
    {
        "+"
    }

    fn table_left_junction(&self) -> (r: &str)
        default_ensures
            r@ == "+"@,
    {
        "+"
    }

    fn table_right_junction(&self) -> (r: &str)
        default_ensures
            r@ == "+"@,
    {
        "+"
    }

    fn table_cross(&self) -> (r: &str)
        default_ensures
            r@ == "+"@,
    {
        "+"
    }

    fn emphasis_open(&self) -> (r: &str)
        default_ensures
            r@ == "*"@,
    {
        "*"
    }

    fn emphasis_close(&self) -> (r: &str)
        default_ensures
            r@ == "*"@,
    {
        "*"
    }

    fn strong_open(&self) -> (r: &str)
        default_ensures
            r@ == "**"@,
    {
        "**"
    }

    fn strong_close(&self) -> (r: &str)
        default_ensures
            r@ == "**"@,
    {
        "**"
    }

    fn code_open(&self) -> (r: &str)
        default_ensures
            r@ == "`"@,
    {
        "`"
    }

    fn code_close(&self) -> (r: &str)
        default_ensures
            r@ == "`"@,
    {
        "`"
    }

    fn strikethrough_open(&self) -> (r: &str)
        default_ensures
            r@ == "~~"@,
    {
        "~~"
    }

    fn strikethrough_close(&self) -> (r: &str)
        default_ensures
            r@ == "~~"@,
    {
        "~~"
    }

    /// Whether link URLs (and their parentheses) are left out of the output.
    fn hide_urls(&self) -> (r: bool)
        default_ensures
            !r,
    {
        false
    }
}

/// The mapper that keeps markdown as it was written.
#[derive(Debug, Clone, Copy, Default)]
pub struct DefaultMapper;

impl Mapper for DefaultMapper {}

/// The mapper for styled output: text decorators are removed (styles replace them), and
/// structural symbols are drawn with box characters.
#[derive(Debug, Clone, Copy, Default)]
pub struct StyledMapper;

impl Mapper for StyledMapper {
    fn blockquote_bar(&self) -> (r: &str)
        ensures
            r@ == "▌ "@,
    {
        "▌ "
    }

    fn horizontal_rule_char(&self) -> (r: &str)
        ensures
            r@ == "─"@,
    {
        "─"
    }

    fn task_checked(&self) -> (r: &str)
        ensures
            r@ == "[✓] "@,
    {
        "[✓] "
    }

    fn table_vertical(&self) -> (r: &str)
        ensures
            r@ == "│"@,
    {
        "│"
    }

    fn table_horizontal(&self) -> (r: &str)
        ensures
            r@ == "─"@,
    {
        "─"
    }

    fn table_top_left(&self) -> (r: &str)
        ensures
            r@ == "┌"@,
    {
        "┌"
    }

    fn table_top_right(&self) -> (r: &str)
        ensures
            r@ == "┐"@,
    {
        "┐"
    }

    fn table_bottom_left(&self) -> (r: &str)
        ensures
            r@ == "└"@,
    {
        "└"
    }

    fn table_bottom_right(&self) -> (r: &str)
        ensures
            r@ == "┘"@,
    {
        "┘"
    }

    fn table_top_junction(&self) -> (r: &str)
        ensures
            r@ == "┬"@,
    {
        "┬"
    }

    fn table_bottom_junction(&self) -> (r: &str)
        ensures
            r@ == "┴"@,
    {
        "┴"
    }

    fn table_left_junction(&self) -> (r: &str)
        ensures
            r@ == "├"@,
    {
        "├"
    }

    fn table_right_junction(&self) -> (r: &str)
        ensures
            r@ == "┤"@,
    {
        "┤"
    }

    fn table_cross(&self) -> (r: &str)
        ensures
            r@ == "┼"@,
    {
        "┼"
    }

    fn emphasis_open(&self) -> (r: &str)
        ensures
            r@ == ""@,
    {
        ""
    }

    fn emphasis_close(&self) -> (r: &str)
        ensures
            r@ == ""@,
    {
        ""
    }

    fn strong_open(&self) -> (r: &str)
        ensures
            r@ == ""@,
    {
        ""
    }

    fn strong_close(&self) -> (r: &str)
        ensures
            r@ == ""@,
    {
        ""
    }

    fn code_open(&self) -> (r: &str)
        ensures
            r@ == ""@,
    {
        ""
    }

    fn code_close(&self) -> (r: &str)
        ensures
            r@ == ""@,
    {
        ""
    }

    fn strikethrough_open(&self) -> (r: &str)
        ensures
            r@ == ""@,
    {
        ""
    }

    fn strikethrough_close(&self) -> (r: &str)
        ensures
            r@ == ""@,
    {
        ""
    }

    fn hide_urls(&self) -> (r: bool)
        ensures
            r,
    {
        true
    }
}

/// `sym` holds what the methods of `mapper` return: each symbol is a result that the
/// mapper's method may give (for the mappers of this crate, exactly the symbol that its
/// contract names).
pub open spec fn mapper_gives<M: Mapper>(mapper: &M, sym: Symbols) -> bool {
    &&& exists|r: &str| #[trigger] call_ensures(M::link_desc_open, (mapper,), r) && r@ == sym.link_desc_open@
    &&& exists|r: &str| #[trigger] call_ensures(M::link_desc_close, (mapper,), r) && r@ == sym.link_desc_close@
    &&& exists|r: &str| #[trigger] call_ensures(M::link_url_open, (mapper,), r) && r@ == sym.link_url_open@
    &&& exists|r: &str| #[trigger] call_ensures(M::link_url_close, (mapper,), r) && r@ == sym.link_url_close@
    &&& exists|r: &str| #[trigger] call_ensures(M::blockquote_bar, (mapper,), r) && r@ == sym.blockquote_bar@
    &&& exists|r: &str| #[trigger] call_ensures(M::horizontal_rule_char, (mapper,), r) && r@ == sym.horizontal_rule_char@
    &&& exists|r: &str| #[trigger] call_ensures(M::ordered_marker_suffix, (mapper,), r) && r@ == sym.ordered_marker_suffix@
    &&& exists|r: &str| #[trigger] call_ensures(M::task_checked, (mapper,), r) && r@ == sym.task_checked@
    &&& exists|r: &str| #[trigger] call_ensures(M::task_unchecked, (mapper,), r) && r@ == sym.task_unchecked@
    &&& exists|r: &str| #[trigger] call_ensures(M::table_vertical, (mapper,), r) && r@ == sym.table_vertical@
    &&& exists|r: &str| #[trigger] call_ensures(M::table_horizontal, (mapper,), r) && r@ == sym.table_horizontal@
    &&& exists|r: &str| #[trigger] call_ensures(M::table_top_left, (mapper,), r) && r@ == sym.table_top_left@
    &&& exists|r: &str| #[trigger] call_ensures(M::table_top_right, (mapper,), r) && r@ == sym.table_top_right@
    &&& exists|r: &str| #[trigger] call_ensures(M::table_bottom_left, (mapper,), r) && r@ == sym.table_bottom_left@
    &&& exists|r: &str| #[trigger] call_ensures(M::table_bottom_right, (mapper,), r) && r@ == sym.table_bottom_right@
    &&& exists|r: &str| #[trigger] call_ensures(M::table_top_junction, (mapper,), r) && r@ == sym.table_top_junction@
    &&& exists|r: &str| #[trigger] call_ensures(M::table_bottom_junction, (mapper,), r) && r@ == sym.table_bottom_junction@
    &&& exists|r: &str| #[trigger] call_ensures(M::table_left_junction, (mapper,), r) && r@ == sym.table_left_junction@
    &&& exists|r: &str| #[trigger] call_ensures(M::table_right_junction, (mapper,), r) && r@ == sym.table_right_junction@
    &&& exists|r: &str| #[trigger] call_ensures(M::table_cross, (mapper,), r) && r@ == sym.table_cross@
    &&& exists|r: &str| #[trigger] call_ensures(M::emphasis_open, (mapper,), r) && r@ == sym.emphasis_open@
    &&& exists|r: &str| #[trigger] call_ensures(M::emphasis_close, (mapper,), r) && r@ == sym.emphasis_close@
    &&& exists|r: &str| #[trigger] call_ensures(M::strong_open, (mapper,), r) && r@ == sym.strong_open@
    &&& exists|r: &str| #[trigger] call_ensures(M::strong_close, (mapper,), r) && r@ == sym.strong_close@
    &&& exists|r: &str| #[trigger] call_ensures(M::code_open, (mapper,), r) && r@ == sym.code_open@
    &&& exists|r: &str| #[trigger] call_ensures(M::code_close, (mapper,), r) && r@ == sym.code_close@
    &&& exists|r: &str| #[trigger] call_ensures(M::strikethrough_open, (mapper,), r) && r@ == sym.strikethrough_open@
    &&& exists|r: &str| #[trigger] call_ensures(M::strikethrough_close, (mapper,), r) && r@ == sym.strikethrough_close@
    &&& exists|r: &str| #[trigger] call_ensures(M::unordered_bullet, (mapper, BulletStyle::Dash), r) && r@ == sym.bullet_dash@
    &&& exists|r: &str| #[trigger] call_ensures(M::unordered_bullet, (mapper, BulletStyle::Star), r) && r@ == sym.bullet_star@
    &&& exists|r: &str| #[trigger] call_ensures(M::unordered_bullet, (mapper, BulletStyle::Plus), r) && r@ == sym.bullet_plus@
    &&& call_ensures(M::hide_urls, (mapper,), sym.hide_urls)
}

/// The symbols of a mapper, taken once so that the rendering of a document uses one fixed
/// set of them.
pub struct Symbols {
    pub link_desc_open: String,
    pub link_desc_close: String,
    pub link_url_open: String,
    pub link_url_close: String,
    pub blockquote_bar: String,
    pub horizontal_rule_char: String,
    pub bullet_dash: String,
    pub bullet_star: String,
    pub bullet_plus: String,
    pub ordered_marker_suffix: String,
    pub task_checked: String,
    pub task_unchecked: String,
    pub table_vertical: String,
    pub table_horizontal: String,
    pub table_top_left: String,
    pub table_top_right: String,
    pub table_bottom_left: String,
    pub table_bottom_right: String,
    pub table_top_junction: String,
    pub table_bottom_junction: String,
    pub table_left_junction: String,
    pub table_right_junction: String,
    pub table_cross: String,
    pub emphasis_open: String,
    pub emphasis_close: String,
    pub strong_open: String,
    pub strong_close: String,
    pub code_open: String,
    pub code_close: String,
    pub strikethrough_open: String,
    pub strikethrough_close: String,
    pub hide_urls: bool,
}

impl Symbols {
    /// The symbols that `mapper` gives.
    pub fn of<M: Mapper>(mapper: &M) -> (s: Symbols)
        ensures
            mapper_gives(mapper, s),
    {
        Symbols {
            link_desc_open: mapper.link_desc_open().to_owned(),
            link_desc_close: mapper.link_desc_close().to_owned(),
            link_url_open: mapper.link_url_open().to_owned(),
            link_url_close: mapper.link_url_close().to_owned(),
            blockquote_bar: mapper.blockquote_bar().to_owned(),
            horizontal_rule_char: mapper.horizontal_rule_char().to_owned(),
            bullet_dash: mapper.unordered_bullet(BulletStyle::Dash).to_owned(),
            bullet_star: mapper.unordered_bullet(BulletStyle::Star).to_owned(),
            bullet_plus: mapper.unordered_bullet(BulletStyle::Plus).to_owned(),
            ordered_marker_suffix: mapper.ordered_marker_suffix().to_owned(),
            task_checked: mapper.task_checked().to_owned(),
            task_unchecked: mapper.task_unchecked().to_owned(),
            table_vertical: mapper.table_vertical().to_owned(),
            table_horizontal: mapper.table_horizontal().to_owned(),
            table_top_left: mapper.table_top_left().to_owned(),
            table_top_right: mapper.table_top_right().to_owned(),
            table_bottom_left: mapper.table_bottom_left().to_owned(),
            table_bottom_right: mapper.table_bottom_right().to_owned(),
            table_top_junction: mapper.table_top_junction().to_owned(),
            table_bottom_junction: mapper.table_bottom_junction().to_owned(),
            table_left_junction: mapper.table_left_junction().to_owned(),
            table_right_junction: mapper.table_right_junction().to_owned(),
            table_cross: mapper.table_cross().to_owned(),
            emphasis_open: mapper.emphasis_open().to_owned(),
            emphasis_close: mapper.emphasis_close().to_owned(),
            strong_open: mapper.strong_open().to_owned(),
            strong_close: mapper.strong_close().to_owned(),
            code_open: mapper.code_open().to_owned(),
            code_close: mapper.code_close().to_owned(),
            strikethrough_open: mapper.strikethrough_open().to_owned(),
            strikethrough_close: mapper.strikethrough_close().to_owned(),
            hide_urls: mapper.hide_urls(),
        }
    }

    /// The bullet symbol for `b`.
    pub open spec fn bullet(&self, b: BulletStyle) -> Seq<char> {
        match b {
            BulletStyle::Dash => self.bullet_dash@,
            BulletStyle::Star => self.bullet_star@,
            BulletStyle::Plus => self.bullet_plus@,
        }
    }

    /// The bullet symbol for `b`.
    pub fn unordered_bullet(&self, b: BulletStyle) -> (s: &String)
        ensures
            s@ == self.bullet(b),
    {
        match b {
            BulletStyle::Dash => &self.bullet_dash,
            BulletStyle::Star => &self.bullet_star,
            BulletStyle::Plus => &self.bullet_plus,
        }
    }
}

} // verus!
