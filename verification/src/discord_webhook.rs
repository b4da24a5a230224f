//! The message that carries an alert to a Discord webhook, and the reading
//! of what the webhook answered.

use crate::alert::{Alert, AlertView};
use vstd::prelude::*;
use vstd::string::StringExecFns;

verus! {

/// One embed of a webhook message. A field that is `None` is left out of
/// the message.
#[derive(Debug, Clone, PartialEq, Eq)]
pub struct DiscordEmbed {
    pub title: Option<String>,
    pub description: Option<String>,
    pub color: Option<u32>,
    pub fields: Option<Vec<EmbedField>>,
    pub footer: Option<EmbedFooter>,
    pub timestamp: Option<String>,
}

/// One named value inside an embed.
#[derive(Debug, Clone, PartialEq, Eq)]
pub struct EmbedField {
    pub name: String,
    pub value: String,
    pub inline: Option<bool>,
}

/// The footer line of an embed.
#[derive(Debug, Clone, PartialEq, Eq)]
pub struct EmbedFooter {
    pub text: String,
}

/// A webhook message. A field that is `None` is left out of the message.
#[derive(Debug, PartialEq, Eq)]
pub struct DiscordWebhook {
    pub content: Option<String>,
    pub username: Option<String>,
    pub avatar_url: Option<String>,
    pub embeds: Option<Vec<DiscordEmbed>>,
}

/// An embed field in specifications.
pub struct EmbedFieldView {
    pub name: Seq<char>,
    pub value: Seq<char>,
    pub inline: Option<bool>,
}

/// An embed footer in specifications.
pub struct EmbedFooterView {
    pub text: Seq<char>,
}

/// An embed in specifications.
pub struct DiscordEmbedView {
    pub title: Option<Seq<char>>,
    pub description: Option<Seq<char>>,
    pub color: Option<u32>,
    pub fields: Option<Seq<EmbedFieldView>>,
    pub footer: Option<EmbedFooterView>,
    pub timestamp: Option<Seq<char>>,
}

/// A webhook message in specifications.
pub struct DiscordWebhookView {
    pub content: Option<Seq<char>>,
    pub username: Option<Seq<char>>,
    pub avatar_url: Option<Seq<char>>,
    pub embeds: Option<Seq<DiscordEmbedView>>,
}

/// The characters of a text that may be absent.
pub open spec fn text_of(text: Option<String>) -> Option<Seq<char>> {
    match text {
        Some(t) => Some(t@),
        None => None,
    }
}

impl View for EmbedField {
    type V = EmbedFieldView;

    open spec fn view(&self) -> EmbedFieldView {
        EmbedFieldView { name: self.name@, value: self.value@, inline: self.inline }
    }
}

impl View for EmbedFooter {
    type V = EmbedFooterView;

    open spec fn view(&self) -> EmbedFooterView {
        EmbedFooterView { text: self.text@ }
    }
}

impl View for DiscordEmbed {
    type V = DiscordEmbedView;

    open spec fn view(&self) -> DiscordEmbedView {
        DiscordEmbedView {
            title: text_of(self.title),
            description: text_of(self.description),
            color: self.color,
            fields: match self.fields {
                Some(fields) => Some(Seq::new(fields@.len(), |i: int| fields@[i]@)),
                None => None,
            },
            footer: match self.footer {
                Some(footer) => Some(footer@),
                None => None,
            },
            timestamp: text_of(self.timestamp),
        }
    }
}

impl View for DiscordWebhook {
    type V = DiscordWebhookView;

    open spec fn view(&self) -> DiscordWebhookView {
        DiscordWebhookView {
            content: text_of(self.content),
            username: text_of(self.username),
            avatar_url: text_of(self.avatar_url),
            embeds: match self.embeds {
                Some(embeds) => Some(Seq::new(embeds@.len(), |i: int| embeds@[i]@)),
                None => None,
            },
        }
    }
}

/// The embed that shows an alert: its title, its description, the code of
/// its colour and its footer, and nothing else.
pub open spec fn embed_for(alert: AlertView) -> DiscordEmbedView {
    DiscordEmbedView {
        title: Some(alert.title),
        description: Some(alert.description),
        color: Some(alert.color.spec_code()),
        fields: None,
        footer: Some(EmbedFooterView { text: alert.footer }),
        timestamp: None,
    }
}

/// The message that carries an alert: the one embed of the alert, sent
/// under the sender name of this monitor, with no text beside the embed.
pub open spec fn webhook_for(alert: AlertView) -> DiscordWebhookView {
    DiscordWebhookView {
        content: None,
        username: Some("Minecraft Server Alerts"@),
        avatar_url: None,
        embeds: Some(seq![embed_for(alert)]),
    }
}

impl DiscordEmbed {
    /// Builds the embed that shows `alert`.
    pub fn from_alert(alert: Alert) -> (embed: DiscordEmbed)
        ensures
            embed@ == embed_for(alert@),
    {
        DiscordEmbed {
            title: Some(alert.title),
            description: Some(alert.description),
            color: Some(alert.color.code()),
            fields: None,
            footer: Some(EmbedFooter { text: alert.footer }),
            timestamp: None,
        }
    }
}

impl DiscordWebhook {
    /// Builds the message that carries `alert`.
    pub fn from_alert(alert: Alert) -> (message: DiscordWebhook)
        ensures
            message@ == webhook_for(alert@),
    {
        let mut embeds: Vec<DiscordEmbed> = Vec::new();
        embeds.push(DiscordEmbed::from_alert(alert));
        let message = DiscordWebhook {
            content: None,
            username: Some("Minecraft Server Alerts".to_string()),
            avatar_url: None,
            embeds: Some(embeds),
        };
        assert(message@.embeds->0 =~= seq![embed_for(alert@)]);
        message
    }
}

/// Whether a webhook that answered with this HTTP status code took the
/// message: the codes from 200 to 299 say that it did.
pub fn is_success(status: u16) -> (ok: bool)
    ensures
        ok == (200 <= status <= 299),
{
    200 <= status && status <= 299
}

/// The text that stands for an HTTP status code in messages: the number and
/// the usual phrase for it, such as `404 Not Found`.
pub uninterp spec fn status_text(status: u16) -> Seq<char>;

/// Calls `reqwest::StatusCode::from_u16` and, on the status code that it
/// gives, `to_string`. The first accepts the numbers from 100 to 999 and no
/// other; the second writes the number, a space and the phrase that the code
/// is known by. The contract says for which numbers there is a text, and
/// names the text.
#[verifier::external_body]
fn status_line(status: u16) -> (line: Option<String>)
    ensures
        line is Some <==> 100 <= status <= 999,
        line matches Some(text) ==> text@ == status_text(status),
{
    match reqwest::StatusCode::from_u16(status) {
        Ok(code) => Some(code.to_string()),
        Err(_) => None,
    }
}

/// The report of a message that the webhook did not take, from the text
/// that stands for the status and the text that the webhook sent back.
pub open spec fn failure_report(status_line: Seq<char>, error_text: Seq<char>) -> Seq<char> {
    "Discord webhook failed with status "@ + status_line + ": "@ + error_text
}

/// Writes the report of a message that the webhook did not take.
pub fn failure_message_with(status_line: &str, error_text: &str) -> (message: String)
    ensures
        message@ == failure_report(status_line@, error_text@),
{
    let mut message = "Discord webhook failed with status ".to_string();
    message.append(status_line);
    message.append(": ");
    message.append(error_text);
    message
}

/// Writes the report of a message that the webhook answered with `status`
/// and the body `error_text`. There is none where `status` is no HTTP status
/// code, that is, not a number from 100 to 999.
pub fn failure_message(status: u16, error_text: &str) -> (message: Option<String>)
    ensures
        message is Some <==> 100 <= status <= 999,
        message matches Some(text) ==> text@ == failure_report(status_text(status), error_text@),
{
    match status_line(status) {
        Some(line) => Some(failure_message_with(line.as_str(), error_text)),
        None => None,
    }
}

} // verus!
