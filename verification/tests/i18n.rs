use rssstv::i18n::{I18n, Locale};

const MESSAGES: &str = "hello = Hello\n\
greet = Hello, { $name }!\n\
rows = { $rows } of { $total } rows\n\
only-attribute =\n    .title = Title\n";

#[test]
fn a_message_is_shown_in_its_language() {
    let i18n = I18n::new(Locale::Ja, MESSAGES.to_owned());
    assert_eq!(i18n.locale(), Locale::Ja);
    assert_eq!(i18n.text("hello"), "Hello");
}

#[test]
fn arguments_are_filled_in_without_isolation_marks() {
    let i18n = I18n::new(Locale::En, MESSAGES.to_owned());
    assert_eq!(i18n.text_with("greet", &[("name", "JA1ABC")]), "Hello, JA1ABC!");
    assert_eq!(i18n.text_with("rows", &[("rows", "3"), ("total", "240")]), "3 of 240 rows");
}

#[test]
fn a_missing_message_reads_as_its_key() {
    let i18n = I18n::new(Locale::En, MESSAGES.to_owned());
    assert_eq!(i18n.text("no-such-message"), "no-such-message");
    assert_eq!(i18n.text_with("no-such-message", &[("name", "x")]), "no-such-message");
    assert_eq!(i18n.text("only-attribute"), "only-attribute");
    assert_eq!(I18n::new(Locale::En, String::new()).text("hello"), "hello");
}

#[test]
fn a_text_with_an_error_keeps_the_messages_it_could_read() {
    let i18n = I18n::new(Locale::En, "hello = Hello\n!!! broken\nbye = Bye\n".to_owned());
    assert_eq!(i18n.text("hello"), "Hello");
    assert_eq!(i18n.text("bye"), "Bye");
}
