use vstd::prelude::*;

use crate::text::str_eq;

verus! {

/// Offset that separates session keys from channel keys in the sliding window.
pub open spec fn session_key_base() -> nat {
    0x100_0000_0000
}

/// Sliding-window key of a channel target.
pub fn key_channel(id: u32) -> (k: u64)
    ensures
        k == id,
{
    id as u64
}

/// Sliding-window key of a session target: the id with bit 40 set.
pub fn key_session(id: u32) -> (k: u64)
    ensures
        k == session_key_base() + id,
{
    assert((1u64 << 40u64) == 0x100_0000_0000u64) by (bit_vector);
    assert(0x100_0000_0000u64 | (id as u64) == 0x100_0000_0000u64 + (id as u64)) by (bit_vector);
    (1u64 << 40) | id as u64
}

/// Detection only: the event is logged, nothing is enforced.
pub const ACTION_LOG: u8 = 0;
/// The flagged client is muted.
pub const ACTION_MUTE: u8 = 1;
/// The flagged client is disconnected.
pub const ACTION_KICK: u8 = 2;
/// The flagged client is banned persistently (IP and name), then disconnected.
pub const ACTION_BAN: u8 = 3;

/// The action code that a textual action selects: `"mute"`, `"kick"`, `"ban"`,
/// anything else logs.
pub open spec fn action_of(name: Seq<char>) -> u8 {
    if name == "mute"@ {
        ACTION_MUTE
    } else if name == "kick"@ {
        ACTION_KICK
    } else if name == "ban"@ {
        ACTION_BAN
    } else {
        ACTION_LOG
    }
}

/// The name under which an action code is shown: unknown codes show as `"log"`.
pub open spec fn action_text(action: u8) -> Seq<char> {
    if action == ACTION_MUTE {
        "mute"@
    } else if action == ACTION_KICK {
        "kick"@
    } else if action == ACTION_BAN {
        "ban"@
    } else {
        "log"@
    }
}

/// Parses the textual action of the configuration.
pub fn parse_action(action: &str) -> (code: u8)
    ensures
        code == action_of(action@),
{
    if str_eq(action, "mute") {
        ACTION_MUTE
    } else if str_eq(action, "kick") {
        ACTION_KICK
    } else if str_eq(action, "ban") {
        ACTION_BAN
    } else {
        ACTION_LOG
    }
}

/// The textual name of an action code.
pub fn action_name(action: u8) -> (name: &'static str)
    ensures
        name@ == action_text(action),
{
    if action == ACTION_MUTE {
        "mute"
    } else if action == ACTION_KICK {
        "kick"
    } else if action == ACTION_BAN {
        "ban"
    } else {
        "log"
    }
}

/// The four action names are pairwise different.
proof fn lemma_action_texts_differ()
    ensures
        "log"@ != "mute"@,
        "log"@ != "kick"@,
        "log"@ != "ban"@,
        "mute"@ != "kick"@,
        "mute"@ != "ban"@,
        "kick"@ != "ban"@,
{
    reveal_strlit("mute");
    reveal_strlit("kick");
    reveal_strlit("log");
    reveal_strlit("ban");
    assert("log"@.len() != "mute"@.len());
    assert("log"@.len() != "kick"@.len());
    assert("log"@[0] != "ban"@[0]);
    assert("mute"@[0] != "kick"@[0]);
    assert("mute"@.len() != "ban"@.len());
    assert("kick"@.len() != "ban"@.len());
}

/// Naming an action and parsing the name back gives the action, for every
/// known action code; unknown codes come back as `ACTION_LOG`.
pub proof fn lemma_action_name_roundtrip(action: u8)
    ensures
        action_of(action_text(action)) == (if action <= ACTION_BAN { action } else { ACTION_LOG }),
{
    lemma_action_texts_differ();
}

/// Every textual action parses to a code whose name is one of `log`, `mute`, `kick`, `ban`,
/// and a name that is already one of those is kept.
pub proof fn lemma_parse_action_name(name: Seq<char>)
    ensures
        action_of(name) <= ACTION_BAN,
        (name == "log"@ || name == "mute"@ || name == "kick"@ || name == "ban"@) ==> action_text(
            action_of(name),
        ) == name,
{
    lemma_action_texts_differ();
}

/// Channel keys and session keys never collide, and each is one-to-one, so the
/// sliding window counts distinct targets exactly.
pub proof fn lemma_keys_distinct(a: u32, b: u32)
    ensures
        a != (session_key_base() + b),
        (session_key_base() + a == session_key_base() + b) ==> a == b,
{
}

} // verus!
