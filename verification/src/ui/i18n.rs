//! The sentences the library's enums turn into, with their placeholders.

use vstd::prelude::*;
use crate::dates;
use crate::dates::{Day, Moment, RelativeLabel};
use crate::net::errors::Failure;
use crate::text;

verus! {

/// The placeholder of a name.
pub open spec fn placeholder(key: Seq<char>) -> Seq<char> {
    "{"@ + key + "}"@
}

/// What some pairs of names and values say.
pub open spec fn pair_views(pairs: Seq<(&str, &str)>) -> Seq<(Seq<char>, Seq<char>)> {
    Seq::new(pairs.len(), |i: int| (pairs[i].0@, pairs[i].1@))
}

/// A template with its placeholders replaced, one name after the other.
pub open spec fn formatted(template: Seq<char>, pairs: Seq<(Seq<char>, Seq<char>)>) -> Seq<char>
    decreases pairs.len(),
{
    if pairs.len() == 0 {
        template
    } else {
        text::replace_text(
            formatted(template, pairs.drop_last()),
            placeholder(pairs.last().0),
            pairs.last().1,
        )
    }
}

/// A template with `{name}` placeholders substituted, in a form that keeps the
/// placeholders visible to translators.
pub fn format(template: &str, pairs: &[(&str, &str)]) -> (r: String)
    ensures
        r@ == formatted(template@, pair_views(pairs@)),
{
    let ghost views = pair_views(pairs@);
    let mut out = text::chars_of(template);
    let mut i: usize = 0;
    assert(views.take(0) =~= Seq::empty());
    while i < pairs.len()
        invariant
            i <= pairs.len(),
            views == pair_views(pairs@),
            out@ == formatted(template@, views.take(i as int)),
        decreases pairs.len() - i,
    {
        proof {
            assert(views.take(i + 1).drop_last() =~= views.take(i as int));
            assert(views.take(i + 1).last() == views[i as int]);
        }
        let mut key = text::chars_of("{");
        text::extend_str(&mut key, pairs[i].0);
        text::extend_str(&mut key, "}");
        proof {
            reveal_strlit("{");
        }
        out = text::replaced_text(&out, &key, &text::chars_of(pairs[i].1));
        i = i + 1;
    }
    assert(views.take(i as int) =~= views);
    text::text_of(&out)
}

/// A text that no placeholder stands in is left as it is.
pub proof fn plain_templates_stay(template: Seq<char>, pairs: Seq<(Seq<char>, Seq<char>)>)
    requires
        !template.contains('{'),
    ensures
        formatted(template, pairs) == template,
    decreases pairs.len(),
{
    if pairs.len() > 0 {
        plain_templates_stay(template, pairs.drop_last());
        nothing_to_replace(template, pairs.last().0, pairs.last().1, 0);
        assert(template.skip(0) =~= template);
    }
}

proof fn nothing_to_replace(s: Seq<char>, key: Seq<char>, with: Seq<char>, i: int)
    requires
        !s.contains('{'),
        0 <= i <= s.len(),
    ensures
        text::replace_text_from(s, placeholder(key), with, i) == s.skip(i),
    decreases s.len() - i,
{
    reveal_strlit("{");
    let p = placeholder(key);
    assert(p[0] == '{');
    if i < s.len() {
        if text::matches_at(s, p, i) {
            assert(s.subrange(i, i + p.len())[0] == s[i]);
            assert(s.contains(s[i]));
        }
        nothing_to_replace(s, key, with, i + 1);
        assert(s.skip(i) =~= seq![s[i]] + s.skip(i + 1));
    } else {
        assert(s.skip(i) =~= Seq::empty());
    }
}

/// A counted sentence, its form chosen, with the count in place of `{n}` and the other
/// placeholders substituted.
pub fn plural(chosen: &str, n: u64, pairs: &[(&str, &str)]) -> (r: String)
    ensures
        r@ == formatted(
            text::replace_text(chosen@, "{n}"@, text::decimal(n as nat)),
            pair_views(pairs@),
        ),
{
    proof {
        reveal_strlit("{n}");
    }
    let counted = text::replaced_text(
        &text::chars_of(chosen),
        &text::chars_of("{n}"),
        &text::to_decimal(n),
    );
    format(&text::text_of(&counted), pairs)
}

/// A sentence to be translated and formatted, or a text that stands as it is.
#[derive(Debug, PartialEq, Eq)]
pub enum Sentence {
    /// This sentence.
    Plain(&'static str),
    /// This sentence, with the value of its one placeholder.
    With { template: &'static str, key: &'static str, value: String },
    /// This text, in no need of a translation.
    Verbatim(String),
}

/// What a sentence says.
pub enum SentenceView {
    Plain(Seq<char>),
    With { template: Seq<char>, key: Seq<char>, value: Seq<char> },
    Verbatim(Seq<char>),
}

impl View for Sentence {
    type V = SentenceView;

    open spec fn view(&self) -> SentenceView {
        match self {
            Sentence::Plain(t) => SentenceView::Plain(t@),
            Sentence::With { template, key, value } => SentenceView::With {
                template: template@,
                key: key@,
                value: value@,
            },
            Sentence::Verbatim(t) => SentenceView::Verbatim(t@),
        }
    }
}

/// A sentence that names a host.
pub open spec fn hosted(template: Seq<char>, host: Seq<char>) -> SentenceView {
    SentenceView::With { template, key: "host"@, value: host }
}

/// The friendly sentence for a classified network failure.
pub open spec fn failure_sentence(failure: Failure) -> SentenceView {
    match failure {
        Failure::Auth => SentenceView::Plain("Sign-in failed. Check the account password."@),
        Failure::Tls { host } => hosted(
            "Couldn't establish a secure connection to {host}."@,
            host@,
        ),
        Failure::NotFound { host } => hosted(
            "Can't find {host}. Check the server address or your connection."@,
            host@,
        ),
        Failure::Refused { host } => hosted(
            "{host} refused the connection. Check the port."@,
            host@,
        ),
        Failure::Timeout { host } => hosted("Connecting to {host} timed out."@, host@),
        Failure::Unreachable => SentenceView::Plain(
            "Couldn't reach the mail server. Check your connection."@,
        ),
        Failure::Server(t) => SentenceView::Verbatim(t@),
        Failure::NoCredential => SentenceView::Plain("Could not sign in to this account."@),
    }
}

fn about_host(template: &'static str, host: &str) -> (r: Sentence)
    ensures
        r@ == hosted(template@, host@),
{
    Sentence::With { template, key: "host", value: host.to_owned() }
}

/// The friendly sentence for a classified network failure.
pub fn failure_message(failure: &Failure) -> (r: Sentence)
    ensures
        r@ == failure_sentence(*failure),
{
    match failure {
        Failure::Auth => Sentence::Plain("Sign-in failed. Check the account password."),
        Failure::Tls { host } => about_host(
            "Couldn't establish a secure connection to {host}.",
            host,
        ),
        Failure::NotFound { host } => about_host(
            "Can't find {host}. Check the server address or your connection.",
            host,
        ),
        Failure::Refused { host } => about_host(
            "{host} refused the connection. Check the port.",
            host,
        ),
        Failure::Timeout { host } => about_host("Connecting to {host} timed out.", host),
        Failure::Unreachable => Sentence::Plain(
            "Couldn't reach the mail server. Check your connection.",
        ),
        Failure::Server(t) => Sentence::Verbatim(t.clone()),
        Failure::NoCredential => Sentence::Plain("Could not sign in to this account."),
    }
}

/// The short label for when a message was sent.
pub open spec fn label_sentence(label: dates::RelativeView) -> SentenceView {
    match label {
        dates::RelativeView::Today(time) => SentenceView::With {
            template: "Today {time}"@,
            key: "time"@,
            value: time,
        },
        dates::RelativeView::Yesterday => SentenceView::Plain("Yesterday"@),
        dates::RelativeView::Weekday(day) => SentenceView::Verbatim(day),
        dates::RelativeView::Date(day) => SentenceView::Verbatim(day),
        dates::RelativeView::Raw(day) => SentenceView::Verbatim(day),
    }
}

/// Render when a message was sent as the short label the list and reader show.
pub fn label_for(label: RelativeLabel) -> (r: Sentence)
    ensures
        r@ == label_sentence(label@),
{
    match label {
        RelativeLabel::Today(time) => Sentence::With {
            template: "Today {time}",
            key: "time",
            value: time,
        },
        RelativeLabel::Yesterday => Sentence::Plain("Yesterday"),
        RelativeLabel::Weekday(day) => Sentence::Verbatim(day),
        RelativeLabel::Date(day) => Sentence::Verbatim(day),
        RelativeLabel::Raw(day) => Sentence::Verbatim(day),
    }
}

/// Render a stored timestamp as the short label the list and reader show.
pub fn date_label(value: &str) -> (r: Sentence)
    ensures
        exists|m: Option<Moment>, today: Day|
            dates::local_reading(value@, m) && today.wf() && dates::clock_tells(today) && r@ == label_sentence(
                #[trigger] dates::relative_reading(m, value@, today),
            ),
{
    label_for(dates::relative_label(value))
}

/// A placeholder gives way to its value, and the text around it stays.
pub proof fn placeholders_are_filled(
    before: Seq<char>,
    key: Seq<char>,
    after: Seq<char>,
    value: Seq<char>,
)
    requires
        !before.contains('{'),
        !after.contains('{'),
    ensures
        formatted(before + placeholder(key) + after, seq![(key, value)]) == before + value + after,
{
    reveal_strlit("{");
    let p = placeholder(key);
    let all = before + p + after;
    assert(p[0] == '{');
    assert forall|i: int| 0 <= i < before.len() implies !#[trigger] text::matches_at(all, p, i) by {
        if text::matches_at(all, p, i) {
            assert(all.subrange(i, i + p.len())[0] == all[i]);
            assert(before[i] == all[i]);
            assert(before.contains(before[i]));
        }
    }
    text::texts_are_replaced(before, p, after, value);
    nothing_to_replace(after, key, value, 0);
    assert(after.skip(0) =~= after);
    let pairs = seq![(key, value)];
    assert(pairs.drop_last().len() == 0);
    assert(formatted(all, pairs.drop_last()) == all);
}

} // verus!
