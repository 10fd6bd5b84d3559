//! Discord notifications of task progress.
use vstd::prelude::*;
use crate::text::{decimal, push_str, push_decimal, from_chars, str_eq};
use crate::models::TaskUpdate;

verus! {

/// The body of a webhook post.
pub struct WebhookPayload {
    pub content: String,
    pub embeds: Option<Vec<DiscordEmbed>>,
}

/// One embed of a Discord message.
pub struct DiscordEmbed {
    pub title: String,
    pub description: String,
    pub color: i32,
}

/// The embed colour of a task status: green when completed, red on error,
/// blue otherwise.
pub open spec fn status_color(status: Seq<char>) -> int {
    if status == "completed"@ {
        0x00FF00
    } else if status == "error"@ {
        0xFF0000
    } else {
        0x0000FF
    }
}

/// The embed colour of a task status.
pub fn webhook_color(status: &str) -> (r: i32)
    ensures
        r as int == status_color(status@),
{
    if str_eq(status, "completed") {
        0x00FF00
    } else if str_eq(status, "error") {
        0xFF0000
    } else {
        0x0000FF
    }
}

/// The message posted for a task update: its id in the content, and one
/// embed with its status, message and progress, coloured by status.
pub fn discord_payload(task: &TaskUpdate) -> (r: WebhookPayload)
    ensures
        r.content@ == "Task Update: "@ + task.task_id@,
        r.embeds is Some,
        r.embeds.unwrap()@.len() == 1,
        r.embeds.unwrap()@[0].title@ == "Status: "@ + task.status@,
        r.embeds.unwrap()@[0].description@ == "Message: "@ + task.message@ + "\nProgress: "@
            + decimal(task.progress as int) + "/"@ + decimal(task.total as int),
        r.embeds.unwrap()@[0].color as int == status_color(task.status@),
{
    let mut content: Vec<char> = Vec::new();
    push_str(&mut content, "Task Update: ");
    push_str(&mut content, task.task_id.as_str());
    let mut title: Vec<char> = Vec::new();
    push_str(&mut title, "Status: ");
    push_str(&mut title, task.status.as_str());
    let mut desc: Vec<char> = Vec::new();
    push_str(&mut desc, "Message: ");
    push_str(&mut desc, task.message.as_str());
    push_str(&mut desc, "\nProgress: ");
    push_decimal(&mut desc, task.progress as i64);
    push_str(&mut desc, "/");
    push_decimal(&mut desc, task.total as i64);
    let embed = DiscordEmbed {
        title: from_chars(&title),
        description: from_chars(&desc),
        color: webhook_color(task.status.as_str()),
    };
    WebhookPayload { content: from_chars(&content), embeds: Some(vec![embed]) }
}

} // verus!
