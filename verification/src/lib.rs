//! Verified core of the WBOR studio dashboard: the update scheduling,
//! error reporting, text cleanup, API history caching and message formatting
//! logic that the rendering front end drives.

pub mod update_rate;
pub mod api_history_list;
pub mod assoc;
pub mod texture_slots;
pub mod text;
pub mod text_layout;
pub mod utf8;
pub mod error_state;
pub mod request;
pub mod twilio;
pub mod parse;
pub mod timestamps;
pub mod spinitron;
pub mod synced_map;
pub mod continual;
pub mod weather;
pub mod surprise;
pub mod transitions;
pub mod ipc;
pub mod api_keys;
pub mod screen_rect;
