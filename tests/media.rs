use sneedchat::media::{apply_inline_media, render_fragment};
use sneedchat::text::{contains, sanitize, text_equals};

fn emote(find: &str, url: &str, label: &str) -> (String, String, String) {
    (find.to_string(), url.to_string(), label.to_string())
}

#[test]
fn sanitize_escapes_markup() {
    assert_eq!(
        sanitize("<b>\"x\" & 'y'</b>"),
        "&lt;b&gt;&quot;x&quot; &amp; &#039;y&#039;&lt;/b&gt;"
    );
    assert_eq!(sanitize("plain"), "plain");
    assert_eq!(sanitize(""), "");
}

#[test]
fn fragment_markup() {
    assert_eq!(
        render_fragment("https://e/w.png", "wave"),
        "<img class=\"emoji\" src=\"https://e/w.png\" data-emoji=\"wave\" alt=\"wave\" />"
    );
    assert_eq!(
        render_fragment("a\"b", "<x>"),
        "<img class=\"emoji\" src=\"a&quot;b\" data-emoji=\"&lt;x&gt;\" alt=\"&lt;x&gt;\" />"
    );
}

#[test]
fn every_occurrence_is_substituted() {
    let media = vec![emote(":wave:", "w.png", "wave")];
    let f = render_fragment("w.png", "wave");
    assert_eq!(
        apply_inline_media("hi :wave: there :wave:", &media),
        format!("hi {} there {}", f, f)
    );
    assert_eq!(apply_inline_media("no emotes", &media), "no emotes");
}

#[test]
fn replacement_markup_is_not_matched_again() {
    let media = vec![emote("Kappa", "k.png", "Kappa"), emote("emoji", "e.png", "emoji")];
    let k = render_fragment("k.png", "Kappa");
    let e = render_fragment("e.png", "emoji");
    assert_eq!(apply_inline_media("Kappa emoji", &media), format!("{} {}", k, e));
    let media2 = vec![emote("img", "i.png", "img"), emote("class", "c.png", "class")];
    let i = render_fragment("i.png", "img");
    let out = apply_inline_media("img", &media2);
    assert_eq!(out, i);
}

#[test]
fn literal_markup_in_body_stays_text() {
    let media = vec![emote("Kappa", "k.png", "Kappa")];
    let literal = render_fragment("k.png", "Kappa");
    let escaped = sanitize(&literal);
    let out = apply_inline_media(&escaped, &media);
    assert!(!out.starts_with("<img"));
    assert!(out.starts_with("&lt;img"));
}

#[test]
fn empty_pattern_matches_nothing() {
    let media = vec![emote("", "x.png", "x")];
    assert_eq!(apply_inline_media("abc", &media), "abc");
}

#[test]
fn overlapping_occurrences_left_to_right() {
    let media = vec![emote("aa", "a.png", "a")];
    let f = render_fragment("a.png", "a");
    assert_eq!(apply_inline_media("aaa", &media), format!("{}a", f));
}

#[test]
fn script_label_is_neutralised() {
    let media = vec![emote("x", "u", "<script>")];
    let body = sanitize("x <script>");
    let out = apply_inline_media(&body, &media);
    assert!(!out.contains("<script>"));
}

#[test]
fn text_helpers() {
    assert!(contains("Reference rates of the day", "rates"));
    assert!(!contains("abc", "abcd"));
    assert!(contains("abc", ""));
    assert!(text_equals("ab", "ab"));
    assert!(!text_equals("ab", "abc"));
}
