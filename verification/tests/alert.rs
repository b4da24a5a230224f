use minecraft_discord_alerts::alert::{
    join_alert, leave_alert, render, server_alert, Alert, AlertColor, NEGATIVE_CODE,
    POSITIVE_CODE,
};
use minecraft_discord_alerts::discord_webhook::{
    failure_message, failure_message_with, is_success, DiscordEmbed, DiscordWebhook, EmbedFooter,
};
use minecraft_discord_alerts::tracker::AlertEvent;

fn alert(title: &str, description: &str, color: AlertColor, footer: &str) -> Alert {
    Alert {
        title: title.to_string(),
        description: description.to_string(),
        color,
        footer: footer.to_string(),
    }
}

#[test]
fn colour_codes_are_green_and_red() {
    assert_eq!(AlertColor::Positive.code(), 0x00FF00);
    assert_eq!(AlertColor::Negative.code(), 0xFF0000);
    assert_eq!(POSITIVE_CODE, 65280);
    assert_eq!(NEGATIVE_CODE, 16711680);
}

#[test]
fn a_join_is_rendered_as_good_news() {
    let event = AlertEvent::PlayerJoined("alice".to_string());
    assert_eq!(
        render(&event, "mc.example.org:25565"),
        alert(
            "Player Joined",
            "**alice** joined the minecraft server",
            AlertColor::Positive,
            "Server address: mc.example.org:25565",
        )
    );
}

#[test]
fn a_leave_is_rendered_as_bad_news() {
    let event = AlertEvent::PlayerLeft("bob".to_string());
    assert_eq!(
        render(&event, "mc.example.org"),
        alert(
            "Player Left",
            "**bob** left the minecraft server",
            AlertColor::Negative,
            "Server address: mc.example.org",
        )
    );
}

#[test]
fn an_outage_is_rendered_as_bad_news() {
    assert_eq!(
        render(&AlertEvent::ServerDown, "10.0.0.7"),
        alert(
            "Server status changed",
            "Minecraft server is now offline",
            AlertColor::Negative,
            "Server address: 10.0.0.7",
        )
    );
}

#[test]
fn a_recovery_is_rendered_as_good_news() {
    assert_eq!(
        render(&AlertEvent::ServerUp, "10.0.0.7"),
        alert(
            "Server status changed",
            "Minecraft server is now online",
            AlertColor::Positive,
            "Server address: 10.0.0.7",
        )
    );
}

#[test]
fn render_agrees_with_the_builders_of_each_kind() {
    let address = "play.example.net";
    assert_eq!(
        render(&AlertEvent::PlayerJoined("carol".to_string()), address),
        join_alert("carol", address)
    );
    assert_eq!(
        render(&AlertEvent::PlayerLeft("carol".to_string()), address),
        leave_alert("carol", address)
    );
    assert_eq!(render(&AlertEvent::ServerUp, address), server_alert(true, address));
    assert_eq!(render(&AlertEvent::ServerDown, address), server_alert(false, address));
}

#[test]
fn names_and_addresses_are_taken_as_they_are() {
    let rendered = join_alert("", "");
    assert_eq!(rendered.description, "**** joined the minecraft server");
    assert_eq!(rendered.footer, "Server address: ");
    let rendered = leave_alert("日本_42", "[::1]:25565");
    assert_eq!(rendered.description, "**日本_42** left the minecraft server");
    assert_eq!(rendered.footer, "Server address: [::1]:25565");
}

#[test]
fn an_embed_shows_the_alert_and_nothing_else() {
    let embed = DiscordEmbed::from_alert(join_alert("alice", "mc.example.org"));
    assert_eq!(
        embed,
        DiscordEmbed {
            title: Some("Player Joined".to_string()),
            description: Some("**alice** joined the minecraft server".to_string()),
            color: Some(0x00FF00),
            fields: None,
            footer: Some(EmbedFooter { text: "Server address: mc.example.org".to_string() }),
            timestamp: None,
        }
    );
}

#[test]
fn a_message_carries_one_embed_under_the_sender_name() {
    let message = DiscordWebhook::from_alert(server_alert(false, "mc.example.org"));
    assert_eq!(
        message,
        DiscordWebhook {
            content: None,
            username: Some("Minecraft Server Alerts".to_string()),
            avatar_url: None,
            embeds: Some(vec![DiscordEmbed {
                title: Some("Server status changed".to_string()),
                description: Some("Minecraft server is now offline".to_string()),
                color: Some(0xFF0000),
                fields: None,
                footer: Some(EmbedFooter { text: "Server address: mc.example.org".to_string() }),
                timestamp: None,
            }]),
        }
    );
}

#[test]
fn success_is_the_range_from_200_to_299() {
    assert!(!is_success(0));
    assert!(!is_success(199));
    assert!(is_success(200));
    assert!(is_success(204));
    assert!(is_success(299));
    assert!(!is_success(300));
    assert!(!is_success(404));
    assert!(!is_success(500));
    assert!(!is_success(u16::MAX));
}

#[test]
fn a_failure_report_names_status_and_body() {
    assert_eq!(
        failure_message_with("404 Not Found", "Unknown Webhook"),
        "Discord webhook failed with status 404 Not Found: Unknown Webhook"
    );
    assert_eq!(failure_message_with("", ""), "Discord webhook failed with status : ");
}

#[test]
fn a_failure_report_spells_the_status_out() {
    assert_eq!(
        failure_message(404, "Unknown Webhook"),
        Some("Discord webhook failed with status 404 Not Found: Unknown Webhook".to_string())
    );
    assert_eq!(
        failure_message(429, "{\"retry_after\": 1}"),
        Some(
            "Discord webhook failed with status 429 Too Many Requests: {\"retry_after\": 1}"
                .to_string()
        )
    );
    assert_eq!(
        failure_message(500, ""),
        Some("Discord webhook failed with status 500 Internal Server Error: ".to_string())
    );
}

#[test]
fn a_status_without_a_phrase_is_still_reported() {
    assert_eq!(
        failure_message(599, "x"),
        Some("Discord webhook failed with status 599 <unknown status code>: x".to_string())
    );
}

#[test]
fn there_is_no_report_for_what_is_no_status_code() {
    assert_eq!(failure_message(0, "x"), None);
    assert_eq!(failure_message(99, "x"), None);
    assert_eq!(failure_message(1000, "x"), None);
    assert_eq!(failure_message(u16::MAX, "x"), None);
    assert!(failure_message(100, "x").is_some());
    assert!(failure_message(999, "x").is_some());
}
