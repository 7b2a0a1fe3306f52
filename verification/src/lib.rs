//! Odak's task logic: the persisted task document and every operation on it, reminder and
//! repeat scheduling, list views, sync bookkeeping, text editing and Markdown structure.

use vstd::prelude::*;

pub mod text;
pub mod model;
pub mod clock;
pub mod reminders;
pub mod data;
pub mod views;
pub mod recurrence;
pub mod updater;
pub mod supabase;
pub mod auth;
pub mod sync;
pub mod markdown;
pub mod realtime;
pub mod notices;
pub mod list;
pub mod groups;
pub mod palette;
pub mod form;
pub mod picker;
pub mod widgets;
pub mod account;
pub mod motion;
pub mod instance;
pub mod edit;
pub mod shell;
pub mod link;
pub mod turn;

verus! {
} // verus!
