//! What an alert says: the text and colour that stand for each event.

use crate::tracker::{AlertEvent, EventView};
use vstd::prelude::*;
use vstd::string::StringExecFns;

verus! {

/// Whether an alert brings good news (a player joined, the server is back)
/// or bad news (a player left, the server is gone).
#[derive(Clone, Copy, Debug, PartialEq, Eq, Structural)]
pub enum AlertColor {
    Positive,
    Negative,
}

/// The colour code of good news: green.
pub const POSITIVE_CODE: u32 = 0x00FF00;

/// The colour code of bad news: red.
pub const NEGATIVE_CODE: u32 = 0xFF0000;

impl AlertColor {
    /// The colour as a red-green-blue code.
    pub open spec fn spec_code(self) -> u32 {
        match self {
            AlertColor::Positive => POSITIVE_CODE,
            AlertColor::Negative => NEGATIVE_CODE,
        }
    }

    /// The colour as a red-green-blue code.
    #[verifier::when_used_as_spec(spec_code)]
    pub fn code(self) -> (code: u32)
        ensures
            code == self.spec_code(),
    {
        match self {
            AlertColor::Positive => POSITIVE_CODE,
            AlertColor::Negative => NEGATIVE_CODE,
        }
    }
}

/// One alert, ready to be handed to whatever delivers it.
#[derive(Debug, Clone, PartialEq, Eq)]
pub struct Alert {
    pub title: String,
    pub description: String,
    pub color: AlertColor,
    pub footer: String,
}

/// An alert in specifications.
pub struct AlertView {
    pub title: Seq<char>,
    pub description: Seq<char>,
    pub color: AlertColor,
    pub footer: Seq<char>,
}

impl View for Alert {
    type V = AlertView;

    open spec fn view(&self) -> AlertView {
        AlertView {
            title: self.title@,
            description: self.description@,
            color: self.color,
            footer: self.footer@,
        }
    }
}

/// The footer of every alert: it names the server that is watched.
pub open spec fn footer_for(server_address: Seq<char>) -> Seq<char> {
    "Server address: "@ + server_address
}

/// The alert that tells of a player who joined.
pub open spec fn join_alert_for(player_name: Seq<char>, server_address: Seq<char>) -> AlertView {
    AlertView {
        title: "Player Joined"@,
        description: "**"@ + player_name + "** joined the minecraft server"@,
        color: AlertColor::Positive,
        footer: footer_for(server_address),
    }
}

/// The alert that tells of a player who left.
pub open spec fn leave_alert_for(player_name: Seq<char>, server_address: Seq<char>) -> AlertView {
    AlertView {
        title: "Player Left"@,
        description: "**"@ + player_name + "** left the minecraft server"@,
        color: AlertColor::Negative,
        footer: footer_for(server_address),
    }
}

/// The alert that tells that the server answers again (`responding`) or has
/// stopped answering.
pub open spec fn server_alert_for(responding: bool, server_address: Seq<char>) -> AlertView {
    AlertView {
        title: "Server status changed"@,
        description: if responding {
            "Minecraft server is now online"@
        } else {
            "Minecraft server is now offline"@
        },
        color: if responding {
            AlertColor::Positive
        } else {
            AlertColor::Negative
        },
        footer: footer_for(server_address),
    }
}

/// The alert that stands for an event: one fixed text for each kind.
pub open spec fn rendered(event: EventView, server_address: Seq<char>) -> AlertView {
    match event {
        EventView::PlayerJoined(name) => join_alert_for(name, server_address),
        EventView::PlayerLeft(name) => leave_alert_for(name, server_address),
        EventView::ServerDown => server_alert_for(false, server_address),
        EventView::ServerUp => server_alert_for(true, server_address),
    }
}

fn footer(server_address: &str) -> (text: String)
    ensures
        text@ == footer_for(server_address@),
{
    let mut text = "Server address: ".to_string();
    text.append(server_address);
    text
}

/// Builds the alert for a player who joined.
pub fn join_alert(player_name: &str, server_address: &str) -> (alert: Alert)
    ensures
        alert@ == join_alert_for(player_name@, server_address@),
{
    let mut description = "**".to_string();
    description.append(player_name);
    description.append("** joined the minecraft server");
    Alert {
        title: "Player Joined".to_string(),
        description,
        color: AlertColor::Positive,
        footer: footer(server_address),
    }
}

/// Builds the alert for a player who left.
pub fn leave_alert(player_name: &str, server_address: &str) -> (alert: Alert)
    ensures
        alert@ == leave_alert_for(player_name@, server_address@),
{
    let mut description = "**".to_string();
    description.append(player_name);
    description.append("** left the minecraft server");
    Alert {
        title: "Player Left".to_string(),
        description,
        color: AlertColor::Negative,
        footer: footer(server_address),
    }
}

/// Builds the alert for a server that answers again (`responding`) or has
/// stopped answering.
pub fn server_alert(responding: bool, server_address: &str) -> (alert: Alert)
    ensures
        alert@ == server_alert_for(responding, server_address@),
{
    let description = if responding {
        "Minecraft server is now online".to_string()
    } else {
        "Minecraft server is now offline".to_string()
    };
    let color = if responding {
        AlertColor::Positive
    } else {
        AlertColor::Negative
    };
    Alert {
        title: "Server status changed".to_string(),
        description,
        color,
        footer: footer(server_address),
    }
}

/// Builds the alert for an event on the server at `server_address`.
pub fn render(event: &AlertEvent, server_address: &str) -> (alert: Alert)
    ensures
        alert@ == rendered(event@, server_address@),
{
    match event {
        AlertEvent::PlayerJoined(name) => join_alert(name.as_str(), server_address),
        AlertEvent::PlayerLeft(name) => leave_alert(name.as_str(), server_address),
        AlertEvent::ServerDown => server_alert(false, server_address),
        AlertEvent::ServerUp => server_alert(true, server_address),
    }
}

} // verus!
