//! The languages the interface speaks, and its messages in each.

use vstd::prelude::*;
use fluent_bundle::bundle::FluentBundle;
use fluent_bundle::{FluentArgs, FluentResource};
use intl_memoizer::IntlLangMemoizer;
use unic_langid::LanguageIdentifier;
use crate::text::{ascii_lowercase, eq_ignore_ascii_case, eq_ignoring_ascii_case};

verus! {

/// A language the interface can be shown in.
#[derive(Clone, Copy, Debug, PartialEq, Eq, Structural)]
pub enum Locale {
    En,
    Ja,
}

impl Locale {
    /// Every language, in the order the language menu lists them.
    pub fn all() -> (locales: [Locale; 2])
        ensures
            locales@ == seq![Locale::En, Locale::Ja],
    {
        [Locale::En, Locale::Ja]
    }

    /// The language a first run starts in.
    pub fn default_locale() -> (locale: Locale)
        ensures
            locale == Locale::En,
    {
        Locale::En
    }

    pub open spec fn spec_tag(self) -> Seq<char> {
        match self {
            Locale::En => "en"@,
            Locale::Ja => "ja"@,
        }
    }

    /// The language tag the locale is stored and identified by.
    pub fn tag(self) -> (tag: &'static str)
        ensures
            tag@ == self.spec_tag(),
    {
        match self {
            Locale::En => "en",
            Locale::Ja => "ja",
        }
    }

    pub open spec fn spec_from_tag(tag: Seq<char>) -> Option<Locale> {
        if eq_ignoring_ascii_case(Locale::En.spec_tag(), tag) {
            Some(Locale::En)
        } else if eq_ignoring_ascii_case(Locale::Ja.spec_tag(), tag) {
            Some(Locale::Ja)
        } else {
            None
        }
    }

    /// Resolves a stored language tag, tolerating a hand-edited difference in
    /// case.
    pub fn from_tag(tag: &str) -> (locale: Option<Locale>)
        ensures
            locale == Locale::spec_from_tag(tag@),
    {
        if eq_ignore_ascii_case(Locale::En.tag(), tag) {
            Some(Locale::En)
        } else if eq_ignore_ascii_case(Locale::Ja.tag(), tag) {
            Some(Locale::Ja)
        } else {
            None
        }
    }

    pub open spec fn spec_name(self) -> Seq<char> {
        match self {
            Locale::En => "English"@,
            Locale::Ja => "日本語"@,
        }
    }

    /// The language's own name for itself, as the language menu shows it.
    ///
    /// Language names are endonyms and are deliberately not translated.
    pub fn name(self) -> (name: &'static str)
        ensures
            name@ == self.spec_name(),
    {
        match self {
            Locale::En => "English",
            Locale::Ja => "日本語",
        }
    }
}

/// A stored tag names the locale it was written from.
pub proof fn lemma_tag_round_trips(locale: Locale)
    ensures
        Locale::spec_from_tag(locale.spec_tag()) == Some(locale),
{
    reveal_strlit("en");
    reveal_strlit("ja");
    assert(ascii_lowercase("en"@)[0] == 'e');
    assert(ascii_lowercase("ja"@)[0] == 'j');
}

#[verifier::external_type_specification]
#[verifier::external_body]
#[verifier::reject_recursive_types(R)]
#[verifier::reject_recursive_types(M)]
pub struct ExFluentBundle<R, M>(FluentBundle<R, M>);

#[verifier::external_type_specification]
#[verifier::external_body]
pub struct ExFluentResource(FluentResource);

#[verifier::external_type_specification]
#[verifier::external_body]
pub struct ExIntlLangMemoizer(IntlLangMemoizer);

/// The arguments handed to a message, each name with its text.
pub open spec fn arguments_view(args: Seq<(&str, &str)>) -> Seq<(Seq<char>, Seq<char>)> {
    args.map_values(|a: (&str, &str)| (a.0@, a.1@))
}

/// The arguments handed to a message, if any list is.
pub open spec fn handed(args: Option<&[(&str, &str)]>) -> Option<Seq<(Seq<char>, Seq<char>)>> {
    match args {
        Some(list) => Some(arguments_view(list@)),
        None => None,
    }
}

/// What a bundle formats its messages to: for the name of each message
/// that has a value, and the arguments handed to it (none at all, or a
/// list), the text it is formatted to.
pub uninterp spec fn bundle_messages(b: FluentBundle<FluentResource, IntlLangMemoizer>) -> Map<
    (Seq<char>, Option<Seq<(Seq<char>, Seq<char>)>>),
    Seq<char>,
>;

/// What the messages of the Fluent text `source`, in the language with the
/// tag `tag`, are formatted to, as `bundle_messages` gives it.
pub uninterp spec fn fluent_messages(tag: Seq<char>, source: Seq<char>) -> Map<
    (Seq<char>, Option<Seq<(Seq<char>, Seq<char>)>>),
    Seq<char>,
>;

/// A bundle of the messages of `source` in the language tagged `tag`:
/// `FluentResource::try_new` (keeping what it could read of a text with
/// errors in it), `FluentBundle::new`, `set_use_isolating(false)` and
/// `add_resource` (which keeps the first of two messages of one name).
#[verifier::external_body]
fn bundle_of(tag: &str, source: String) -> (b: FluentBundle<FluentResource, IntlLangMemoizer>)
    ensures
        bundle_messages(b) == fluent_messages(tag@, source@),
{
    let identifier: LanguageIdentifier = tag.parse().unwrap_or_default();
    let mut bundle = FluentBundle::new(vec![identifier]);
    bundle.set_use_isolating(false);
    let resource = match FluentResource::try_new(source) {
        Ok(resource) => resource,
        Err((resource, _)) => resource,
    };
    let _ = bundle.add_resource(resource);
    bundle
}

/// The message named `key` formatted with `args` (`get_message`,
/// `FluentMessage::value`, `format_pattern`), when the bundle has one with
/// a value.
#[verifier::external_body]
fn format_message(
    b: &FluentBundle<FluentResource, IntlLangMemoizer>,
    key: &str,
    args: Option<&[(&str, &str)]>,
) -> (text: Option<String>)
    ensures
        text is Some == bundle_messages(*b).contains_key((key@, handed(args))),
        text matches Some(t) ==> t@ == bundle_messages(*b)[(key@, handed(args))],
{
    let pattern = b.get_message(key)?.value()?;
    let arguments = args.map(|list| {
        let mut arguments = FluentArgs::new();
        for (name, value) in list {
            arguments.set(*name, *value);
        }
        arguments
    });
    Some(b.format_pattern(pattern, arguments.as_ref(), &mut Vec::new()).into_owned())
}

/// What the interface shows for the message `key` with `args`: the text
/// it is formatted to, or the key itself when there is no such message.
pub open spec fn shown(
    messages: Map<(Seq<char>, Option<Seq<(Seq<char>, Seq<char>)>>), Seq<char>>,
    key: Seq<char>,
    args: Option<Seq<(Seq<char>, Seq<char>)>>,
) -> Seq<char> {
    if messages.contains_key((key, args)) {
        messages[(key, args)]
    } else {
        key
    }
}

/// The interface's messages in one language.
pub struct I18n {
    locale: Locale,
    bundle: FluentBundle<FluentResource, IntlLangMemoizer>,
}

impl I18n {
    pub closed spec fn spec_locale(&self) -> Locale {
        self.locale
    }

    /// What the messages are formatted to.
    pub closed spec fn messages(&self) -> Map<(Seq<char>, Option<Seq<(Seq<char>, Seq<char>)>>), Seq<char>> {
        bundle_messages(self.bundle)
    }

    /// The messages of `locale`, read from its Fluent text `source`.
    pub fn new(locale: Locale, source: String) -> (i18n: I18n)
        ensures
            i18n.spec_locale() == locale,
            i18n.messages() == fluent_messages(locale.spec_tag(), source@),
    {
        I18n { locale, bundle: bundle_of(locale.tag(), source) }
    }

    pub fn locale(&self) -> (locale: Locale)
        ensures
            locale == self.spec_locale(),
    {
        self.locale
    }

    /// The message `key`, or the key itself when there is none.
    pub fn text(&self, key: &str) -> (text: String)
        ensures
            text@ == shown(self.messages(), key@, None),
    {
        match format_message(&self.bundle, key, None) {
            Some(text) => text,
            None => key.to_owned(),
        }
    }

    /// The message `key` with `args` filled in, or the key itself when there
    /// is no such message.
    pub fn text_with(&self, key: &str, args: &[(&str, &str)]) -> (text: String)
        ensures
            text@ == shown(self.messages(), key@, Some(arguments_view(args@))),
    {
        match format_message(&self.bundle, key, Some(args)) {
            Some(text) => text,
            None => key.to_owned(),
        }
    }
}

} // verus!
