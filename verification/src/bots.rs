//! The decisions the chat-platform front ends make about incoming messages.
use vstd::prelude::*;
use vstd::string::StringExecFns;

verus! {

/// The sender's id and display name, or `("unknown", "Unknown")` when the
/// platform names no sender.
pub fn sender_identity(from: Option<(String, String)>) -> (r: (String, String))
    ensures
        match from {
            Some(p) => r == p,
            None => r.0@ == "unknown"@ && r.1@ == "Unknown"@,
        },
{
    match from {
        Some(p) => p,
        None => (String::from_str("unknown"), String::from_str("Unknown")),
    }
}

/// Whether a Telegram chat is one the bot serves.
pub fn chat_allowed(chats: &Vec<i64>, chat_id: i64) -> (r: bool)
    ensures
        r == chats@.contains(chat_id),
{
    let mut i: usize = 0;
    while i < chats.len()
        invariant
            i <= chats@.len(),
            forall|j: int| 0 <= j < i ==> chats@[j] != chat_id,
        decreases chats@.len() - i,
    {
        if chats[i] == chat_id {
            proof {
                assert(chats@[i as int] == chat_id);
            }
            return true;
        }
        i += 1;
    }
    false
}

fn same_text(a: &str, b: &str) -> (r: bool)
    ensures
        r == (a@ == b@),
{
    let sa = String::from_str(a);
    let sb = String::from_str(b);
    sa == sb
}

/// Some room of `rooms` is `room_id`.
pub open spec fn lists_room(rooms: Seq<String>, room_id: Seq<char>) -> bool {
    exists|i: int| 0 <= i < rooms.len() && #[trigger] rooms[i]@ == room_id
}

/// Every listed room is served, and no other.
pub proof fn lemma_served_rooms_are_the_listed_ones(rooms: Seq<String>, room_id: Seq<char>)
    ensures
        forall|i: int| 0 <= i < rooms.len() ==> lists_room(rooms, #[trigger] rooms[i]@),
        lists_room(rooms, room_id) ==> exists|i: int| 0 <= i < rooms.len() && rooms[i]@ == room_id,
        (forall|i: int| 0 <= i < rooms.len() ==> #[trigger] rooms[i]@ != room_id) ==> !lists_room(
            rooms,
            room_id,
        ),
{
    assert forall|i: int| 0 <= i < rooms.len() implies lists_room(rooms, #[trigger] rooms[i]@) by {
        assert(rooms[i]@ == rooms[i]@);
    }
}

/// Whether a Matrix room is one the bot serves.
pub fn room_allowed(rooms: &Vec<String>, room_id: &str) -> (r: bool)
    ensures
        r == lists_room(rooms@, room_id@),
{
    let mut i: usize = 0;
    while i < rooms.len()
        invariant
            i <= rooms@.len(),
            forall|j: int| 0 <= j < i ==> #[trigger] rooms@[j]@ != room_id@,
        decreases rooms@.len() - i,
    {
        if same_text(rooms[i].as_str(), room_id) {
            return true;
        }
        i += 1;
    }
    false
}

/// The caption of a Matrix image: its body, unless the body is only the file
/// name (or empty when the image has no file name).
pub fn image_caption(body: String, filename: Option<&str>) -> (r: Option<String>)
    ensures
        ({
            let name = match filename {
                Some(f) => f@,
                None => Seq::<char>::empty(),
            };
            if body@ == name {
                r is None
            } else {
                r == Some(body)
            }
        }),
{
    let name = match filename {
        Some(f) => f,
        None => "",
    };
    proof {
        reveal_strlit("");
        assert(""@ =~= Seq::<char>::empty());
    }
    if same_text(body.as_str(), name) {
        None
    } else {
        Some(body)
    }
}

/// Whether a Matrix message event gets an answer: not the bot's own message,
/// not an edit, in a served room, with a valid timestamp that is not before
/// the bot started. `sent_at_ms` is the event time in milliseconds, `None`
/// when it is out of range; `startup_ns` is the start time in nanoseconds.
pub fn should_answer_event(
    from_self: bool,
    is_edit: bool,
    room_served: bool,
    sent_at_ms: Option<i64>,
    startup_ns: i128,
) -> (r: bool)
    ensures
        r == (!from_self && !is_edit && room_served && match sent_at_ms {
            Some(ms) => ms * 1_000_000 >= startup_ns,
            None => false,
        }),
{
    if from_self || is_edit || !room_served {
        return false;
    }
    match sent_at_ms {
        Some(ms) => {
            let sent_ns = (ms as i128) * 1_000_000;
            sent_ns >= startup_ns
        },
        None => false,
    }
}

/// Whether the bot joins a Matrix room: the invitation names the bot itself
/// and is an invite.
pub fn should_join_room(invitee_is_self: bool, is_invite: bool) -> (r: bool)
    ensures
        r == (invitee_is_self && is_invite),
{
    invitee_is_self && is_invite
}

} // verus!
