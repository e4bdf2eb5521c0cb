pub mod db_util;
pub mod matrixbot;
pub mod str_util;
pub mod url_extract;

pub use db_util::{window_result, window_start, AddUrlRun, AddUrlStep, CheckUrl, UrlCtx, RETRY_CNT, RETRY_SLEEP};
pub use matrixbot::{Bot, BotConfig, ChatEvent, RoomMembership};
pub use str_util::{trim_ws, ws_normalize, ConvertWhiteSpace};
pub use url_extract::{urls_from_groups, PatternError, UrlPattern};
