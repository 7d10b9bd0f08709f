use lemon_tokei::badge::{
    amount_message, make_badge, make_badge_style, resolve_color, style_from_name, BadgeMessage,
    BadgeStyle, Magnitude, RenderPlan,
};
use lemon_tokei::languages::Totals;

fn t() -> Totals {
    Totals { code: 1234, comments: 56, blanks: 7, files: 9 }
}

fn text(m: &BadgeMessage) -> Option<String> {
    match m {
        BadgeMessage::Text(s) => Some(s.clone()),
        _ => None,
    }
}

#[test]
fn styles_by_name() {
    assert_eq!(style_from_name("flat"), BadgeStyle::Flat);
    assert_eq!(style_from_name("flat-square"), BadgeStyle::FlatSquare);
    assert_eq!(style_from_name("plastic"), BadgeStyle::Plastic);
    assert_eq!(style_from_name("for-the-badge"), BadgeStyle::ForTheBadge);
    assert_eq!(style_from_name("social"), BadgeStyle::Social);
    assert_eq!(style_from_name("Plastic"), BadgeStyle::Flat);
    assert_eq!(style_from_name(""), BadgeStyle::Flat);
}

#[test]
fn colors_are_normalized() {
    assert_eq!(resolve_color("red"), "#ff0000");
    assert_eq!(resolve_color("#FF0000"), "#ff0000");
    assert_eq!(resolve_color("ff0000"), "#ff0000");
    assert_eq!(resolve_color("#007ec6"), "#007ec6");
    assert_eq!(resolve_color("not a colour"), "#007ec6");
    assert_eq!(resolve_color(""), "#007ec6");
}

#[test]
fn amounts_by_magnitude() {
    assert_eq!(text(&amount_message(0)), Some("0".to_string()));
    assert_eq!(text(&amount_message(999)), Some("999".to_string()));
    match amount_message(1000) {
        BadgeMessage::Scaled { amount, magnitude: Magnitude::Thousand } => assert_eq!(amount, 1000),
        _ => panic!("thousands"),
    }
    match amount_message(999_999) {
        BadgeMessage::Scaled { magnitude: Magnitude::Thousand, .. } => {},
        _ => panic!("thousands"),
    }
    match amount_message(1_000_000) {
        BadgeMessage::Scaled { magnitude, .. } => {
            assert!(matches!(magnitude, Magnitude::Million));
            assert_eq!(magnitude.divisor(), 1_000_000);
            assert_eq!(magnitude.suffix(), 'M');
        },
        _ => panic!("millions"),
    }
    match amount_message(2_500_000_000) {
        BadgeMessage::Scaled { amount, magnitude } => {
            assert!(matches!(magnitude, Magnitude::Billion));
            assert_eq!(amount, 2_500_000_000);
            assert_eq!(magnitude.suffix(), 'B');
        },
        _ => panic!("billions"),
    }
}

#[test]
fn badge_style_fields() {
    let b = make_badge_style("lbl", BadgeMessage::Text("msg".to_string()), "green", "social", "https://x/y.svg");
    assert_eq!(b.label, "lbl");
    assert_eq!(b.label_color, "#555555");
    assert_eq!(text(&b.message), Some("msg".to_string()));
    assert_eq!(b.message_color, "#008000");
    assert_eq!(b.logo, "https://x/y.svg");
    assert!(b.embed_logo);
    assert_eq!(b.style, BadgeStyle::Social);
    let plain = b.without_logo();
    assert_eq!(plain.logo, "");
    assert!(!plain.embed_logo);
    assert_eq!(plain.label, "lbl");
    assert_eq!(plain.style, BadgeStyle::Social);
    let b = make_badge_style("", BadgeMessage::Text(String::new()), "", "", "");
    assert!(!b.embed_logo);
    assert_eq!(b.style, BadgeStyle::Flat);
}

fn badge(plan: RenderPlan) -> lemon_tokei::badge::BadgeSpec {
    match plan {
        RenderPlan::Badge(b) => b,
        RenderPlan::Json => panic!("expected a badge"),
    }
}

#[test]
fn category_counts_and_default_labels() {
    let cases = [
        ("code", "lines of code", "1234"),
        ("files", "files", "9"),
        ("blanks", "blank lines", "7"),
        ("comments", "comments", "56"),
        ("lines", "total lines", "1297"),
        ("anything", "total lines", "1297"),
    ];
    for (cat, lbl, count) in cases {
        let b = badge(make_badge(false, &t(), cat, "", "flat", "blue", "", "", true));
        assert_eq!(b.label, lbl);
        match &b.message {
            BadgeMessage::Text(s) => assert_eq!(s, count),
            BadgeMessage::Scaled { amount, .. } => assert_eq!(amount.to_string(), count),
        }
    }
}

#[test]
fn given_label_is_used() {
    let b = badge(make_badge(false, &t(), "code", "custom label", "flat", "blue", "", "", false));
    assert_eq!(b.label, "custom label");
    let b = badge(make_badge(false, &t(), "code", "", "flat", "blue", "", "", false));
    assert_eq!(b.label, "");
}

#[test]
fn ranked_language_badge() {
    let b = badge(make_badge(false, &t(), "code", "Most Used Language", "flat", "ff0000", "", "Rust", false));
    assert_eq!(text(&b.message), Some("Rust".to_string()));
    assert_eq!(b.label, "Most Used Language");
    assert_eq!(b.message_color, "#ff0000");
}

#[test]
fn json_plan() {
    assert!(matches!(make_badge(true, &t(), "code", "", "flat", "blue", "", "Rust", false), RenderPlan::Json));
}

#[test]
fn unknown_color_gives_default_badge() {
    let a = make_badge_style("l", BadgeMessage::Text("m".into()), "notacolor", "flat", "");
    let b = make_badge_style("l", BadgeMessage::Text("m".into()), "#007ec6", "flat", "");
    assert_eq!(a.message_color, b.message_color);
    assert_eq!(b.message_color, "#007ec6");
    assert_eq!(resolve_color("#00aa0f"), "#00aa0f");
}
