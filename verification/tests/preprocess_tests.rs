use mdepub::preprocess::{
    fix_em_anomaly, fix_punctuation, fix_tshirt_anomaly, is_punctuation,
    preprocess_markdown, remove_extra_spaces, remove_spaces_between_quotes_and_punctuation,
    replace_breaks, replace_quotes,
};

#[test]
fn punctuation_set() {
    assert!(is_punctuation(','));
    assert!(is_punctuation('.'));
    assert!(is_punctuation('?'));
    assert!(is_punctuation('!'));
    assert!(is_punctuation(';'));
    assert!(is_punctuation(':'));
    assert!(is_punctuation('…'));
    assert!(!is_punctuation('a'));
    assert!(!is_punctuation('-'));
}

#[test]
fn squeeze_quote_punct_gap() {
    assert_eq!(remove_spaces_between_quotes_and_punctuation("\" ."), "\".");
    assert_eq!(remove_spaces_between_quotes_and_punctuation("say \"hi\"  ,ok"), "say \"hi\",ok");
    assert_eq!(remove_spaces_between_quotes_and_punctuation("\" x"), "\" x");
}

#[test]
fn curl_quotes_basic() {
    assert_eq!(replace_quotes("\"Hi\""), "\u{201c}Hi\u{201d}");
    assert_eq!(replace_quotes("it's"), "it\u{2019}s");
}

#[test]
fn curl_quotes_keeps_tags() {
    assert_eq!(
        replace_quotes("<a href=\"x\">'y'</a>"),
        "<a href=\"x\">\u{2019}y\u{2019}</a>"
    );
}

#[test]
fn punctuation_moves_inside_quotes() {
    assert_eq!(fix_punctuation("\u{201c}abc\u{201d}."), "\u{201c}abc.\u{201d}");
    assert_eq!(fix_punctuation("\u{201c}abc\u{201d}x"), "\u{201c}abc\u{201d}x");
}

#[test]
fn quote_pipeline_end_to_end() {
    assert_eq!(
        preprocess_markdown("She said \"hi\" ."),
        "She said \u{201c}hi.\u{201d}"
    );
}

#[test]
fn no_straight_quotes_outside_tags_sample() {
    let out = preprocess_markdown("a \"b\" <i t=\"k\">c</i> \"d\"");
    // straight quotes survive only between < and >
    let mut in_tag = false;
    for c in out.chars() {
        if c == '<' {
            in_tag = true;
        } else if c == '>' {
            in_tag = false;
        } else if c == '"' {
            assert!(in_tag, "straight quote outside a tag in {out:?}");
        }
    }
    assert!(out.contains("t=\"k\""));
}

#[test]
fn dash_tightening() {
    assert_eq!(fix_em_anomaly("word — word"), "word—word");
    assert_eq!(fix_em_anomaly("word—word"), "word—word");
    assert_eq!(fix_em_anomaly("word —  word"), "word— word");
}

#[test]
fn tshirt_spellings() {
    assert_eq!(fix_tshirt_anomaly("my tshirt and Tshirt"), "my T-shirt and T-shirt");
    assert_eq!(fix_tshirt_anomaly("t-shirt T-shirt"), "T-shirt T-shirt");
}

#[test]
fn whitespace_collapse() {
    assert_eq!(remove_extra_spaces("a   b\n  c d  \n\ne"), "a b\nc d\n\ne");
    assert_eq!(remove_extra_spaces("one\ttwo"), "one two");
}

#[test]
fn horizontal_rule_replaced() {
    assert_eq!(
        replace_breaks("a\n----\nb"),
        "a\n\n&nbsp;\n\n<div class=\"center\">***</div>\n\n&nbsp;\n\nb"
    );
    assert_eq!(
        preprocess_markdown("a\n----\nb"),
        "a\n\n&nbsp;\n\n<div class=\"center\">***</div>\n\n&nbsp;\n\nb"
    );
}

#[test]
fn horizontal_rule_needs_its_own_line() {
    assert_eq!(replace_breaks("a\nx----y\nb"), "a\nx----y\nb");
    assert_eq!(replace_breaks("a\n-----\nb"), "a\n-----\nb");
    let out = preprocess_markdown("a\nxx----yy\nb");
    assert!(out.contains("xx----yy"));
    assert!(!out.contains("&nbsp;"));
}
