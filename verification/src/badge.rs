//! What a badge shows: its label, its message, its colours, its style and
//! its logo, decided from the request and the statistics.
use vstd::prelude::*;
use crate::languages::Totals;
use crate::text::{chars_eq, chars_of, decimal, decimal_chars, string_of};

verus! {

/// The colour of a badge's message where none is given or the given one is
/// not a colour.
pub open spec fn blue() -> Seq<char> {
    "#007ec6"@
}

/// The colour of a badge's label.
pub open spec fn grey() -> Seq<char> {
    "#555555"@
}

/// The default label of each category.
pub open spec fn blanks_label() -> Seq<char> {
    "blank lines"@
}

pub open spec fn code_label() -> Seq<char> {
    "lines of code"@
}

pub open spec fn comments_label() -> Seq<char> {
    "comments"@
}

pub open spec fn files_label() -> Seq<char> {
    "files"@
}

pub open spec fn lines_label() -> Seq<char> {
    "total lines"@
}

/// The shapes a badge can take.
#[derive(PartialEq, Eq, Structural, Clone, Copy, Debug)]
pub enum BadgeStyle {
    Flat,
    FlatSquare,
    Plastic,
    ForTheBadge,
    Social,
}

/// The style a name selects; `flat` for a name that selects none.
pub open spec fn style_named(s: Seq<char>) -> BadgeStyle {
    if s == "flat"@ {
        BadgeStyle::Flat
    } else if s == "flat-square"@ {
        BadgeStyle::FlatSquare
    } else if s == "plastic"@ {
        BadgeStyle::Plastic
    } else if s == "for-the-badge"@ {
        BadgeStyle::ForTheBadge
    } else if s == "social"@ {
        BadgeStyle::Social
    } else {
        BadgeStyle::Flat
    }
}

/// Whether `s` is the text `lit`.
fn is_text(s: &[char], lit: &str) -> (r: bool)
    ensures
        r == (s@ == lit@),
{
    let l = chars_of(lit);
    chars_eq(s, l.as_slice())
}

/// The style that `name` selects.
pub fn style_from_name(name: &str) -> (r: BadgeStyle)
    ensures
        r == style_named(name@),
{
    let s = chars_of(name);
    if is_text(s.as_slice(), "flat") {
        BadgeStyle::Flat
    } else if is_text(s.as_slice(), "flat-square") {
        BadgeStyle::FlatSquare
    } else if is_text(s.as_slice(), "plastic") {
        BadgeStyle::Plastic
    } else if is_text(s.as_slice(), "for-the-badge") {
        BadgeStyle::ForTheBadge
    } else if is_text(s.as_slice(), "social") {
        BadgeStyle::Social
    } else {
        BadgeStyle::Flat
    }
}

/// The hexadecimal CSS form (`#rrggbb`, or `#rrggbbaa` where not opaque) of
/// the colour that `s` describes, as `csscolorparser` reads it.
pub uninterp spec fn css_hex(s: Seq<char>) -> Option<Seq<char>>;

/// Whether `s` is `#` followed by six lower-case hexadecimal digits.
pub open spec fn is_lower_hex_color(s: Seq<char>) -> bool {
    &&& s.len() == 7
    &&& s[0] == '#'
    &&& forall|i: int|
        1 <= i < 7 ==> ('0' <= #[trigger] s[i] && s[i] <= '9') || ('a' <= s[i] && s[i] <= 'f')
}

/// `csscolorparser::parse(s)` followed by `to_css_hex()`: the hexadecimal
/// form of the colour `s` describes (a name, a hexadecimal code, or a CSS
/// colour function), or nothing where `s` describes no colour. The result is
/// a function of `s` alone. Stated of its value: a text that already is `#`
/// and six lower-case hexadecimal digits comes back unchanged (the crate
/// reads the three bytes and prints them with `{:02x}`); which other texts
/// describe which colour is not stated.
#[verifier::external_body]
fn parse_css_hex(s: &str) -> (r: Option<String>)
    ensures
        match r {
            Some(h) => css_hex(s@) == Some(h@),
            None => css_hex(s@) is None,
        },
        is_lower_hex_color(s@) ==> r is Some && r.unwrap()@ == s@,
{
    match csscolorparser::parse(s) {
        Ok(c) => Some(c.to_css_hex().to_string()),
        Err(_) => None,
    }
}

/// The colour of a badge's message for the requested colour `s`.
pub open spec fn message_color(s: Seq<char>) -> Seq<char> {
    match css_hex(s) {
        Some(h) => h,
        None => blue(),
    }
}

/// The colour of a badge's message: the requested colour in hexadecimal
/// form, blue where it is not a colour.
pub fn resolve_color(color: &str) -> (r: String)
    ensures
        r@ == message_color(color@),
        is_lower_hex_color(color@) ==> r@ == color@,
{
    match parse_css_hex(color) {
        Some(h) => h,
        None => String::from_str("#007ec6"),
    }
}

/// The unit in which a large count is shown.
pub enum Magnitude {
    /// Thousands, shown with the suffix `K`.
    Thousand,
    /// Millions, shown with the suffix `M`.
    Million,
    /// Billions, shown with the suffix `B`.
    Billion,
}

impl Magnitude {
    pub open spec fn spec_divisor(self) -> nat {
        match self {
            Magnitude::Thousand => 1_000,
            Magnitude::Million => 1_000_000,
            Magnitude::Billion => 1_000_000_000,
        }
    }

    /// The number of units in one of this magnitude.
    pub fn divisor(&self) -> (r: usize)
        ensures
            r == self.spec_divisor(),
    {
        match self {
            Magnitude::Thousand => 1_000,
            Magnitude::Million => 1_000_000,
            Magnitude::Billion => 1_000_000_000,
        }
    }

    pub open spec fn spec_suffix(self) -> char {
        match self {
            Magnitude::Thousand => 'K',
            Magnitude::Million => 'M',
            Magnitude::Billion => 'B',
        }
    }

    /// The letter that follows a count of this magnitude.
    pub fn suffix(&self) -> (r: char)
        ensures
            r == self.spec_suffix(),
    {
        match self {
            Magnitude::Thousand => 'K',
            Magnitude::Million => 'M',
            Magnitude::Billion => 'B',
        }
    }
}

/// The message of a badge.
pub enum BadgeMessage {
    /// A text shown as it is.
    Text(String),
    /// `amount` divided by the magnitude's divisor, with one decimal, then
    /// the magnitude's suffix.
    Scaled { amount: usize, magnitude: Magnitude },
}

/// How a count is shown: in the largest unit it reaches, or in full below a
/// thousand.
pub open spec fn amount_message_is(amount: usize, m: BadgeMessage) -> bool {
    if amount >= 1_000_000_000 {
        m matches BadgeMessage::Scaled { amount: a, magnitude: Magnitude::Billion } && a == amount
    } else if amount >= 1_000_000 {
        m matches BadgeMessage::Scaled { amount: a, magnitude: Magnitude::Million } && a == amount
    } else if amount >= 1_000 {
        m matches BadgeMessage::Scaled { amount: a, magnitude: Magnitude::Thousand } && a == amount
    } else {
        m matches BadgeMessage::Text(t) && t@ == decimal(amount as nat)
    }
}

/// The message that shows the count `amount`.
pub fn amount_message(amount: usize) -> (r: BadgeMessage)
    ensures
        amount_message_is(amount, r),
{
    if amount >= 1_000_000_000 {
        BadgeMessage::Scaled { amount, magnitude: Magnitude::Billion }
    } else if amount >= 1_000_000 {
        BadgeMessage::Scaled { amount, magnitude: Magnitude::Million }
    } else if amount >= 1_000 {
        BadgeMessage::Scaled { amount, magnitude: Magnitude::Thousand }
    } else {
        let d = decimal_chars(amount as u64);
        BadgeMessage::Text(string_of(d.as_slice()))
    }
}

/// The count a category reports and the label it has where none is given.
pub open spec fn category_count(t: Totals, category: Seq<char>) -> (nat, Seq<char>) {
    if category == "code"@ {
        (t.code as nat, code_label())
    } else if category == "files"@ {
        (t.files as nat, files_label())
    } else if category == "blanks"@ {
        (t.blanks as nat, blanks_label())
    } else if category == "comments"@ {
        (t.comments as nat, comments_label())
    } else {
        (t.spec_lines(), lines_label())
    }
}

/// Everything a badge is drawn from.
pub struct BadgeSpec {
    pub label: String,
    pub label_color: String,
    pub message: BadgeMessage,
    pub message_color: String,
    pub logo: String,
    pub embed_logo: bool,
    pub style: BadgeStyle,
}

/// The badge with label `label`, message `message`, the message colour for
/// `color`, the style named `style` and the logo at `logo` (embedded where
/// given).
pub open spec fn is_styled_badge(
    b: BadgeSpec,
    label: Seq<char>,
    message: BadgeMessage,
    color: Seq<char>,
    style: Seq<char>,
    logo: Seq<char>,
) -> bool {
    &&& b.label@ == label
    &&& b.label_color@ == grey()
    &&& b.message == message
    &&& b.message_color@ == message_color(color)
    &&& is_lower_hex_color(color) ==> b.message_color@ == color
    &&& b.logo@ == logo
    &&& b.embed_logo == (logo.len() > 0)
    &&& b.style == style_named(style)
}

/// The badge for a label, a message, a colour, a style and a logo.
pub fn make_badge_style(label: &str, message: BadgeMessage, color: &str, style: &str, logo: &str) -> (r: BadgeSpec)
    ensures
        is_styled_badge(r, label@, message, color@, style@, logo@),
{
    BadgeSpec {
        label: String::from_str(label),
        label_color: String::from_str("#555555"),
        message,
        message_color: resolve_color(color),
        logo: String::from_str(logo),
        embed_logo: !logo.is_empty(),
        style: style_from_name(style),
    }
}

/// The default colour, `#007ec6`, is drawn as it is.
pub proof fn lemma_default_color_is_hex()
    ensures
        is_lower_hex_color(blue()),
{
    reveal_strlit("#007ec6");
}

/// A colour that is not a colour gives the badge that the default colour
/// `#007ec6` gives.
pub proof fn law_unknown_color_falls_back_to_default(
    b1: BadgeSpec,
    b2: BadgeSpec,
    label: Seq<char>,
    message: BadgeMessage,
    color: Seq<char>,
    style: Seq<char>,
    logo: Seq<char>,
)
    requires
        css_hex(color) is None,
        is_styled_badge(b1, label, message, color, style, logo),
        is_styled_badge(b2, label, message, blue(), style, logo),
    ensures
        b1.label@ == b2.label@,
        b1.label_color@ == b2.label_color@,
        b1.message == b2.message,
        b1.message_color@ == b2.message_color@,
        b2.message_color@ == blue(),
        b1.logo@ == b2.logo@,
        b1.embed_logo == b2.embed_logo,
        b1.style == b2.style,
{
    lemma_default_color_is_hex();
}

impl BadgeMessage {
    /// A copy of this message.
    pub fn duplicate(&self) -> (r: BadgeMessage)
        ensures
            r == *self,
    {
        match self {
            BadgeMessage::Text(t) => BadgeMessage::Text(t.clone()),
            BadgeMessage::Scaled { amount, magnitude } => BadgeMessage::Scaled {
                amount: *amount,
                magnitude: match magnitude {
                    Magnitude::Thousand => Magnitude::Thousand,
                    Magnitude::Million => Magnitude::Million,
                    Magnitude::Billion => Magnitude::Billion,
                },
            },
        }
    }
}

impl BadgeSpec {
    /// The same badge without a logo: what is drawn where drawing the badge
    /// with its logo fails.
    pub fn without_logo(&self) -> (r: BadgeSpec)
        ensures
            r.label == self.label,
            r.label_color == self.label_color,
            r.message == self.message,
            r.message_color == self.message_color,
            r.logo@ == Seq::<char>::empty(),
            !r.embed_logo,
            r.style == self.style,
    {
        BadgeSpec {
            label: self.label.clone(),
            label_color: self.label_color.clone(),
            message: self.message.duplicate(),
            message_color: self.message_color.clone(),
            logo: String::new(),
            embed_logo: false,
            style: self.style,
        }
    }
}

/// What a response carries.
pub enum RenderPlan {
    /// The summed statistics of the selected languages, as JSON.
    Json,
    /// A badge.
    Badge(BadgeSpec),
}

/// Whether `plan` is what a request gets: JSON where JSON was asked for;
/// else a badge naming the ranked language where one was asked for; else a
/// badge with the count of the category, labelled with the given label or,
/// where none was given, with the category's own label.
pub open spec fn is_badge_plan(
    plan: RenderPlan,
    json: bool,
    t: Totals,
    category: Seq<char>,
    label: Seq<char>,
    style: Seq<char>,
    color: Seq<char>,
    logo: Seq<char>,
    ranking: Seq<char>,
    no_label: bool,
) -> bool {
    if json {
        plan is Json
    } else if ranking.len() > 0 {
        plan matches RenderPlan::Badge(b) && is_styled_badge(
            b,
            label,
            BadgeMessage::Text(b.message->Text_0),
            color,
            style,
            logo,
        ) && b.message is Text && b.message->Text_0@ == ranking
    } else {
        let (amount, default_label) = category_count(t, category);
        plan matches RenderPlan::Badge(b) && is_styled_badge(
            b,
            if no_label {
                default_label
            } else {
                label
            },
            b.message,
            color,
            style,
            logo,
        ) && amount <= usize::MAX && amount_message_is(amount as usize, b.message)
    }
}

/// A badge that shows a ranked language carries exactly the given label
/// (empty where none was given), whatever the category and whether a label
/// was given, and exactly the language's name as its message.
pub proof fn law_ranked_badge_keeps_given_label(
    plan: RenderPlan,
    t: Totals,
    category: Seq<char>,
    label: Seq<char>,
    style: Seq<char>,
    color: Seq<char>,
    logo: Seq<char>,
    ranking: Seq<char>,
    no_label: bool,
)
    requires
        ranking.len() > 0,
        is_badge_plan(plan, false, t, category, label, style, color, logo, ranking, no_label),
    ensures
        plan matches RenderPlan::Badge(b) && b.label@ == label && (b.message matches BadgeMessage::Text(
            m,
        ) && m@ == ranking),
{
}

/// A count badge shows the count of its category: lines of code for `code`,
/// files for `files`, blank lines for `blanks`, comments for `comments`, and
/// all lines (code, comments and blanks) for any other category; without a
/// given label it is labelled after that count.
pub proof fn law_count_badge_counts_category(
    plan: RenderPlan,
    t: Totals,
    category: Seq<char>,
    label: Seq<char>,
    style: Seq<char>,
    color: Seq<char>,
    logo: Seq<char>,
    no_label: bool,
)
    requires
        is_badge_plan(plan, false, t, category, label, style, color, logo, Seq::<char>::empty(), no_label),
    ensures
        plan matches RenderPlan::Badge(b) && {
            &&& category == "code"@ ==> amount_message_is(t.code, b.message) && (no_label ==> b.label@
                == "lines of code"@)
            &&& category == "files"@ ==> amount_message_is(t.files, b.message) && (no_label ==> b.label@
                == "files"@)
            &&& category == "blanks"@ ==> amount_message_is(t.blanks, b.message) && (no_label
                ==> b.label@ == "blank lines"@)
            &&& category == "comments"@ ==> amount_message_is(t.comments, b.message) && (no_label
                ==> b.label@ == "comments"@)
            &&& (category != "code"@ && category != "files"@ && category != "blanks"@ && category
                != "comments"@) ==> t.code + t.comments + t.blanks <= usize::MAX && amount_message_is(
                (t.code + t.comments + t.blanks) as usize,
                b.message,
            ) && (no_label ==> b.label@ == "total lines"@)
        },
{
    reveal_strlit("code");
    reveal_strlit("files");
    reveal_strlit("blanks");
    reveal_strlit("comments");
    assert("files"@ != "code"@) by {
        assert("files"@[0] != "code"@[0]);
    }
    assert("blanks"@ != "code"@) by {
        assert("blanks"@[0] != "code"@[0]);
    }
    assert("blanks"@ != "files"@) by {
        assert("blanks"@[0] != "files"@[0]);
    }
    assert("comments"@ != "code"@) by {
        assert("comments"@.len() != "code"@.len());
    }
    assert("comments"@ != "files"@) by {
        assert("comments"@[0] != "files"@[0]);
    }
    assert("comments"@ != "blanks"@) by {
        assert("comments"@[0] != "blanks"@[0]);
    }
}

/// A count badge carries the given label whenever one was given.
pub proof fn law_count_badge_keeps_given_label(
    plan: RenderPlan,
    t: Totals,
    category: Seq<char>,
    label: Seq<char>,
    style: Seq<char>,
    color: Seq<char>,
    logo: Seq<char>,
)
    requires
        is_badge_plan(plan, false, t, category, label, style, color, logo, Seq::<char>::empty(), false),
    ensures
        plan matches RenderPlan::Badge(b) && b.label@ == label,
{
}

/// A count in thousands or millions shows as a number from 1 up to (not
/// including) 1000 of its unit; a count in billions as at least 1 billion;
/// a count below a thousand in full.
pub proof fn law_scaled_amount_in_unit_range(amount: usize, m: BadgeMessage)
    requires
        amount_message_is(amount, m),
    ensures
        m matches BadgeMessage::Scaled { amount: a, magnitude } ==> {
            &&& a == amount
            &&& 1 <= (amount as int) / (magnitude.spec_divisor() as int)
            &&& magnitude !is Billion ==> (amount as int) / (magnitude.spec_divisor() as int)
                < 1000
            &&& magnitude is Thousand ==> magnitude.spec_divisor() == 1000
            &&& magnitude is Million ==> magnitude.spec_divisor() == 1000 * 1000
            &&& magnitude is Billion ==> magnitude.spec_divisor() == 1000 * 1000 * 1000
        },
        amount < 1000 <==> m is Text,
        m matches BadgeMessage::Text(t) ==> t@ == decimal(amount as nat),
{
    if amount >= 1_000_000_000 {
        assert((amount as int) / 1_000_000_000 >= 1);
    } else if amount >= 1_000_000 {
        assert(1 <= (amount as int) / 1_000_000 < 1000);
    } else if amount >= 1_000 {
        assert(1 <= (amount as int) / 1_000 < 1000);
    }
}

/// What answers a request: the JSON statistics, or the badge.
pub fn make_badge(
    json: bool,
    totals: &Totals,
    category: &str,
    label: &str,
    style: &str,
    color: &str,
    logo: &str,
    ranking_language: &str,
    no_label: bool,
) -> (r: RenderPlan)
    requires
        totals.code + totals.comments + totals.blanks <= usize::MAX,
    ensures
        is_badge_plan(
            r,
            json,
            *totals,
            category@,
            label@,
            style@,
            color@,
            logo@,
            ranking_language@,
            no_label,
        ),
{
    if json {
        return RenderPlan::Json;
    }
    if !ranking_language.is_empty() {
        let msg = BadgeMessage::Text(String::from_str(ranking_language));
        return RenderPlan::Badge(make_badge_style(label, msg, color, style, logo));
    }
    let cat = chars_of(category);
    let (amount, default_label): (usize, &str) = if is_text(cat.as_slice(), "code") {
        (totals.code, "lines of code")
    } else if is_text(cat.as_slice(), "files") {
        (totals.files, "files")
    } else if is_text(cat.as_slice(), "blanks") {
        (totals.blanks, "blank lines")
    } else if is_text(cat.as_slice(), "comments") {
        (totals.comments, "comments")
    } else {
        (totals.lines(), "total lines")
    };
    let shown_label = if no_label {
        default_label
    } else {
        label
    };
    let msg = amount_message(amount);
    RenderPlan::Badge(make_badge_style(shown_label, msg, color, style, logo))
}

} // verus!
