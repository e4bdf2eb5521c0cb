use vstd::prelude::*;

use crate::db_util::UrlCtx;
use crate::str_util::{trim_ws, trimmed, ws_normalize, ws_normalized};
use crate::url_extract::{capture_slots, pattern_compiles, urls_in, PatternError, UrlPattern};

verus! {

/// The bot's membership of the room an event came from.
#[derive(Debug, Clone, Copy, PartialEq, Eq, Structural)]
pub enum RoomMembership {
    Joined,
    Invited,
    Left,
}

/// A room message, as the chat client delivered it.
#[derive(Debug)]
pub struct ChatEvent {
    pub membership: RoomMembership,
    /// Whether the message is plain text.
    pub is_text: bool,
    pub body: String,
    /// The sender's display name; `None` where the lookup failed or found none.
    pub sender_name: Option<String>,
    /// The room's display name, if it has one.
    pub room_name: Option<String>,
}

/// The settings the bot is started with.
#[derive(Debug)]
pub struct BotConfig {
    pub url_regex: String,
    pub url_log_db: String,
    pub matrix_server: String,
    pub matrix_user_id: String,
    pub matrix_password: String,
}

/// A bot whose settings were checked and whose URL pattern is compiled.
pub struct Bot {
    pub url_log_db: String,
    pub matrix_server: String,
    pub matrix_user_id: String,
    pub matrix_password: String,
    pub url_re: UrlPattern,
}

/// Stands for a sender whose name could not be found.
pub open spec fn unknown_nick() -> Seq<char> {
    seq!['U', 'N', 'K', 'N', 'O', 'W', 'N']
}

/// Stands for a room without a name.
pub open spec fn no_room_name() -> Seq<char> {
    seq!['N', 'O', 'N', 'E']
}

/// Set before a room name to make a channel name.
pub open spec fn channel_prefix() -> Seq<char> {
    seq!['m', 'a', 't', 'r', 'i', 'x', '-']
}

/// Whether the URLs of an event are logged: a text message in a joined room.
pub open spec fn is_logged(ev: &ChatEvent) -> bool {
    ev.membership == RoomMembership::Joined && ev.is_text
}

/// The sender's name as logged: normalized, `UNKNOWN` where it is missing.
pub open spec fn nick_of(ev: &ChatEvent) -> Seq<char> {
    ws_normalized(
        match ev.sender_name {
            Some(n) => n@,
            None => unknown_nick(),
        },
    )
}

/// The channel an event is logged under: the prefix and the normalized room
/// name, `NONE` where the room has none.
pub open spec fn channel_of(ev: &ChatEvent) -> Seq<char> {
    channel_prefix() + ws_normalized(
        match ev.room_name {
            Some(n) => n@,
            None => no_room_name(),
        },
    )
}

/// The URLs of an event's message, whitespace trimmed off its ends.
pub open spec fn event_urls(pattern: Seq<char>, ev: &ChatEvent) -> Seq<Seq<char>> {
    urls_in(pattern, trimmed(ev.body@))
}

fn copy_string(s: &String) -> (r: String)
    ensures
        r@ == s@,
{
    String::from_str(s.as_str())
}

impl Bot {
    /// Checks the settings and compiles the URL pattern, which must compile
    /// and have a capture group.
    pub fn new(config: BotConfig) -> (r: Result<Bot, PatternError>)
        ensures
            match r {
                Ok(b) => {
                    &&& pattern_compiles(config.url_regex@)
                    &&& capture_slots(config.url_regex@) >= 2
                    &&& b.url_re@ == config.url_regex@
                    &&& b.url_log_db@ == config.url_log_db@
                    &&& b.matrix_server@ == config.matrix_server@
                    &&& b.matrix_user_id@ == config.matrix_user_id@
                    &&& b.matrix_password@ == config.matrix_password@
                },
                Err(e) => if !pattern_compiles(config.url_regex@) {
                    e == PatternError::Invalid
                } else {
                    capture_slots(config.url_regex@) < 2 && e == PatternError::NoCaptureGroup
                },
            },
    {
        match UrlPattern::new(config.url_regex.as_str()) {
            Err(e) => Err(e),
            Ok(url_re) => Ok(
                Bot {
                    url_log_db: config.url_log_db,
                    matrix_server: config.matrix_server,
                    matrix_user_id: config.matrix_user_id,
                    matrix_password: config.matrix_password,
                    url_re,
                },
            ),
        }
    }

    /// The URL sightings to log for one event, in the order the URLs stand
    /// in the message, each stamped with `now` (seconds since the Unix epoch).
    pub fn url_records(&self, ev: &ChatEvent, now: i64) -> (r: Vec<UrlCtx>)
        ensures
            !is_logged(ev) ==> r@.len() == 0,
            is_logged(ev) ==> r@.len() == event_urls(self.url_re@, ev).len(),
            forall|i: int|
                0 <= i < r@.len() ==> {
                    &&& (#[trigger] r@[i]).chan@ == channel_of(ev)
                    &&& r@[i].nick@ == nick_of(ev)
                    &&& r@[i].url@ == event_urls(self.url_re@, ev)[i]
                    &&& r@[i].ts == now
                },
    {
        let mut out: Vec<UrlCtx> = Vec::new();
        match ev.membership {
            RoomMembership::Joined => {},
            _ => {
                return out;
            },
        }
        if !ev.is_text {
            return out;
        }
        let nick = match &ev.sender_name {
            Some(n) => ws_normalize(n.as_str()),
            None => {
                proof {
                    reveal_strlit("UNKNOWN");
                    assert("UNKNOWN"@ =~= unknown_nick());
                }
                ws_normalize("UNKNOWN")
            },
        };
        let room = match &ev.room_name {
            Some(n) => ws_normalize(n.as_str()),
            None => {
                proof {
                    reveal_strlit("NONE");
                    assert("NONE"@ =~= no_room_name());
                }
                ws_normalize("NONE")
            },
        };
        proof {
            reveal_strlit("matrix-");
            assert("matrix-"@ =~= channel_prefix());
        }
        let chan = String::from_str("matrix-").concat(room.as_str());
        let text = trim_ws(ev.body.as_str());
        let urls = self.url_re.extract_urls(text);
        let mut i: usize = 0;
        while i < urls.len()
            invariant
                i <= urls@.len(),
                is_logged(ev),
                urls@.len() == event_urls(self.url_re@, ev).len(),
                forall|k: int|
                    0 <= k < urls@.len() ==> #[trigger] urls@[k]@ == event_urls(self.url_re@, ev)[k],
                chan@ == channel_of(ev),
                nick@ == nick_of(ev),
                out@.len() == i,
                forall|k: int|
                    0 <= k < i ==> {
                        &&& (#[trigger] out@[k]).chan@ == channel_of(ev)
                        &&& out@[k].nick@ == nick_of(ev)
                        &&& out@[k].url@ == event_urls(self.url_re@, ev)[k]
                        &&& out@[k].ts == now
                    },
            decreases urls@.len() - i,
        {
            let rec = UrlCtx {
                ts: now,
                chan: copy_string(&chan),
                nick: copy_string(&nick),
                url: copy_string(&urls[i]),
            };
            out.push(rec);
            i += 1;
        }
        out
    }
}

} // verus!
