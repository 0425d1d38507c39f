use nexo_poller_gmail::fields::Fields;
use nexo_poller_gmail::html::strip_html;
use nexo_poller_gmail::template::render_template;
use nexo_poller_gmail::urls::{
    compose_query, listing_address, message_address, modify_address, urlencode,
};

fn fields(entries: &[(&str, &str)]) -> Fields {
    let mut all = Fields::new();
    for (name, value) in entries {
        all.insert(name.to_string(), value.to_string());
    }
    all
}

#[test]
fn render_substitutes_known_keys() {
    let f = fields(&[("name", "Ana"), ("phone", "+57300")]);
    assert_eq!(render_template("Hi {name} ({phone})", &f), "Hi Ana (+57300)");
}

#[test]
fn render_keeps_unknown_placeholders() {
    let f = Fields::new();
    assert_eq!(render_template("{unknown}", &f), "{unknown}");
}

#[test]
fn values_are_not_rendered_again() {
    let f = fields(&[("a", "{b}"), ("b", "x")]);
    assert_eq!(render_template("{a}{b}", &f), "{b}x");
}

#[test]
fn braces_without_a_field_are_copied() {
    let f = fields(&[("a", "1"), ("", "empty")]);
    assert_eq!(render_template("{", &f), "{");
    assert_eq!(render_template("}{a", &f), "}{a");
    assert_eq!(render_template("{{a}}", &f), "{1}");
    assert_eq!(render_template("{}", &f), "empty");
    assert_eq!(render_template("", &f), "");
}

#[test]
fn template_characters_beyond_ascii_are_kept() {
    let f = fields(&[("ñ", "é"), ("name", "Ana")]);
    assert_eq!(render_template("é{ñ}", &f), "éé");
    assert_eq!(render_template("é {name}", &f), "é Ana");
    assert_eq!(render_template("¡Hola, {nombre}! 😀", &f), "¡Hola, {nombre}! 😀");
}

#[test]
fn a_field_is_replaced_by_a_later_one() {
    let mut f = fields(&[("a", "1"), ("b", "2")]);
    f.insert("a".to_string(), "3".to_string());
    assert_eq!(f.get("a").map(|s| s.as_str()), Some("3"));
    assert_eq!(f.get("b").map(|s| s.as_str()), Some("2"));
    assert_eq!(f.get("c"), None);
}

#[test]
fn strip_html_removes_tags() {
    assert_eq!(strip_html("<p>Hi <b>there</b></p>"), "Hi there");
}

#[test]
fn brackets_never_stay() {
    assert_eq!(strip_html("a > b < c"), "a  b ");
    assert_eq!(strip_html("a<<b>c>d"), "acd");
    assert_eq!(strip_html("plain é"), "plain é");
    let once = strip_html("x<y>z<");
    assert_eq!(once, "xz");
    assert_eq!(strip_html(&once), once);
}

#[test]
fn urlencode_pcts_non_safe() {
    assert_eq!(urlencode("is:unread"), "is%3Aunread");
}

#[test]
fn urlencode_spells_bytes_in_capitals() {
    assert_eq!(urlencode("AZaz09-_.~"), "AZaz09-_.~");
    assert_eq!(urlencode("a b/é€😀"), "a%20b%2F%C3%A9%E2%82%AC%F0%9F%98%80");
    assert_eq!(urlencode("%41"), "%2541");
    assert_eq!(urlencode(""), "");
}

#[test]
fn the_query_is_bounded_unless_the_bound_is_blank() {
    let q = "is:unread".to_string();
    assert_eq!(compose_query(&q, &None), "is:unread");
    assert_eq!(compose_query(&q, &Some(" \t".to_string())), "is:unread");
    assert_eq!(compose_query(&q, &Some("1d".to_string())), "is:unread newer_than:1d");
    assert_eq!(compose_query(&q, &Some(" 2h ".to_string())), "is:unread newer_than: 2h ");
}

#[test]
fn addresses_are_those_of_the_api() {
    assert_eq!(
        listing_address("is:unread newer_than:1d", 20),
        "https://gmail.googleapis.com/gmail/v1/users/me/messages?q=is%3Aunread%20newer_than%3A1d&maxResults=20"
    );
    assert_eq!(
        message_address("18c"),
        "https://gmail.googleapis.com/gmail/v1/users/me/messages/18c?format=full"
    );
    assert_eq!(
        modify_address("18c"),
        "https://gmail.googleapis.com/gmail/v1/users/me/messages/18c/modify"
    );
}
