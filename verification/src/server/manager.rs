use vstd::prelude::*;
use vstd::utf8::{decode_utf8, encode_utf8, valid_utf8};
use crate::client::connection::ClientInfo;
use crate::messages::{
    conversion_error, conversion_error_line, read_text, to_bytes, utf8_error_text, Messages,
    MessagesHistory,
};
use crate::roles::role_permissions;
use crate::server::client_map::{lists_exactly, others_of, ClientMap};
use crate::text::{push_str, string_of};
use crate::token::{SharedToken, Token};

verus! {

/// While set, addresses and message texts are never shown in what the
/// server prints or relays; `[HIDDEN]` stands in their place.
pub const SAFE_MODE: bool = true;

/// The least time, in nanoseconds, between two accepted messages of one
/// client.
pub const SEND_INTERVAL_NANOS: u64 = 2_000_000_000;

/// How a private value is shown.
pub open spec fn shown(inner: Seq<char>) -> Seq<char> {
    if SAFE_MODE {
        "[HIDDEN]"@
    } else {
        inner
    }
}

/// The line printed when a client joins.
pub open spec fn joined_line(addr: Seq<char>) -> Seq<char> {
    " "@ + shown(addr) + " Successfully joined the server."@
}

/// The text relayed to the others when a client joins.
pub open spec fn joined_notice(addr: Seq<char>) -> Seq<char> {
    shown(addr) + " Successfully joined the server.\n"@
}

/// The line printed when a client leaves.
pub open spec fn left_line(addr: Seq<char>) -> Seq<char> {
    " "@ + shown(addr) + " disconnected"@
}

/// The text relayed to the others when a client leaves.
pub open spec fn left_notice(addr: Seq<char>) -> Seq<char> {
    " "@ + shown(addr) + " disconnected\n"@
}

/// The chat line printed and relayed for an accepted message.
pub open spec fn chat_line(addr: Seq<char>, text: Seq<char>) -> Seq<char> {
    "Private("@ + addr + "): "@ + shown(text) + "\n"@
}

/// The complaint about a client whose role may not send.
pub open spec fn cannot_send_line() -> Seq<char> {
    "this client can't send messages"@
}

/// The complaint about a client that sends too often.
pub open spec fn too_fast_line() -> Seq<char> {
    "Client is sending messages too fast"@
}

/// A message at `now` comes too soon after one accepted at `last_sent`.
pub open spec fn too_soon(last_sent: u64, now: u64) -> bool {
    (now as int) < last_sent + SEND_INTERVAL_NANOS
}

/// What the server does with the outside world in answer to a message.
#[derive(Debug)]
pub enum ServerAction {
    /// Write the text and a newline to standard output.
    Print(String),
    /// Write the text and a newline to standard error.
    PrintError(String),
    /// Write `message` to the connection of each client in `recipients`.
    Broadcast { recipients: Vec<Token>, message: Vec<u8> },
}

/// `a` prints `text` to standard output.
pub open spec fn is_print(a: ServerAction, text: Seq<char>) -> bool {
    a matches ServerAction::Print(s) && s@ == text
}

/// `a` prints `text` to standard error.
pub open spec fn is_print_error(a: ServerAction, text: Seq<char>) -> bool {
    a matches ServerAction::PrintError(s) && s@ == text
}

/// `a` sends `message` once to each client whose token is in `to`.
pub open spec fn is_broadcast(a: ServerAction, to: Set<Seq<char>>, message: Seq<u8>) -> bool {
    a matches ServerAction::Broadcast { recipients, message: m } && lists_exactly(recipients@, to)
        && m@ == message
}

/// One step of the server: from the clients, the connection behind each
/// token kept as key (`ids`) and the history before, a message received at
/// `now` leads to those after and to `actions`, performed in order.
pub open spec fn handles(
    clients: Map<Seq<char>, ClientInfo>,
    ids: Map<Seq<char>, u64>,
    logs: Seq<(Seq<char>, Seq<u8>)>,
    message: Messages,
    now: u64,
    clients2: Map<Seq<char>, ClientInfo>,
    ids2: Map<Seq<char>, u64>,
    logs2: Seq<(Seq<char>, Seq<u8>)>,
    actions: Seq<ServerAction>,
) -> bool {
    match message {
        Messages::ClientConnected { client, token } => {
            &&& clients2 == clients.insert(token@, client)
            &&& logs2 == logs
            &&& if clients.contains_key(token@) {
                &&& ids2 == ids
                &&& actions.len() == 0
            } else {
                &&& ids2 == ids.insert(token@, token.id)
                &&& actions.len() == 2
                &&& is_print(actions[0], joined_line(client.addr@))
                &&& is_broadcast(
                    actions[1],
                    others_of(ids, token.id),
                    encode_utf8(joined_notice(client.addr@)),
                )
            }
        },
        Messages::ClientDisconnected { client: _, token } => {
            &&& logs2 == logs
            &&& if clients.contains_key(token@) {
                let addr = clients[token@].addr@;
                &&& clients2 == clients.remove(token@)
                &&& ids2 == ids.remove(token@)
                &&& actions.len() == 2
                &&& is_print(actions[0], left_line(addr))
                &&& is_broadcast(actions[1], others_of(ids, token.id), encode_utf8(left_notice(addr)))
            } else {
                clients2 == clients && ids2 == ids && actions.len() == 0
            }
        },
        Messages::NewMessage { token, message } => {
            let c = clients[token@];
            &&& ids2 == ids
            &&& if !valid_utf8(message@) {
                &&& clients2 == clients
                &&& logs2 == logs
                &&& actions.len() == 1
                &&& is_print_error(actions[0], conversion_error_line(utf8_error_text(message@)))
            } else if !role_permissions(c.role).send {
                &&& clients2 == clients
                &&& logs2 == logs
                &&& actions.len() == 1
                &&& is_print_error(actions[0], cannot_send_line())
            } else if too_soon(c.last_sent, now) {
                &&& clients2 == clients
                &&& logs2 == logs
                &&& actions.len() == 1
                &&& is_print_error(actions[0], too_fast_line())
            } else {
                let line = chat_line(c.addr@, decode_utf8(message@));
                &&& clients2 == clients.insert(token@, ClientInfo { last_sent: now, ..c })
                &&& logs2 == logs.push((token@, encode_utf8(line)))
                &&& actions.len() == 2
                &&& is_print(actions[0], line)
                &&& is_broadcast(actions[1], others_of(ids, token.id), encode_utf8(line))
            }
        },
    }
}

/// A message can be handled without failing: a valid text message comes
/// from a connected client.
pub open spec fn can_handle(clients: Map<Seq<char>, ClientInfo>, message: Messages) -> bool {
    match message {
        Messages::NewMessage { token, message: m } => valid_utf8(m@) ==> clients.contains_key(
            token@,
        ),
        _ => true,
    }
}

/// The token, as its connection holds it, that a message concerns.
pub open spec fn message_sender(message: Messages) -> SharedToken {
    match message {
        Messages::ClientConnected { client: _, token } => token,
        Messages::ClientDisconnected { client: _, token } => token,
        Messages::NewMessage { token, message: _ } => token,
    }
}

/// If `a` sends anything, it sends only to tokens of `ids` whose key was
/// drawn by another connection than `sender`.
pub open spec fn reaches_only_others(a: ServerAction, ids: Map<Seq<char>, u64>, sender: u64) -> bool {
    match a {
        ServerAction::Broadcast { recipients, message: _ } => forall|j: int|
            0 <= j < recipients@.len() ==> ids.contains_key(#[trigger] recipients@[j]@)
                && ids[recipients@[j]@] != sender,
        _ => true,
    }
}

/// If `a` sends anything, it sends only to clients of `clients`.
pub open spec fn reaches_only_connected(a: ServerAction, clients: Map<Seq<char>, ClientInfo>) -> bool {
    match a {
        ServerAction::Broadcast { recipients, message: _ } => forall|j: int|
            0 <= j < recipients@.len() ==> clients.contains_key(#[trigger] recipients@[j]@),
        _ => true,
    }
}

/// Whatever the server relays goes only to clients that were connected,
/// and never back to the connection the message came from.
pub proof fn law_broadcast_skips_sender(
    clients: Map<Seq<char>, ClientInfo>,
    ids: Map<Seq<char>, u64>,
    logs: Seq<(Seq<char>, Seq<u8>)>,
    message: Messages,
    now: u64,
    clients2: Map<Seq<char>, ClientInfo>,
    ids2: Map<Seq<char>, u64>,
    logs2: Seq<(Seq<char>, Seq<u8>)>,
    actions: Seq<ServerAction>,
)
    requires
        ids.dom() == clients.dom(),
        handles(clients, ids, logs, message, now, clients2, ids2, logs2, actions),
    ensures
        forall|i: int|
            0 <= i < actions.len() ==> reaches_only_others(
                #[trigger] actions[i],
                ids,
                message_sender(message).id,
            ),
        forall|i: int| 0 <= i < actions.len() ==> reaches_only_connected(#[trigger] actions[i], clients),
{
}

/// The history only grows, by at most one line per message.
pub proof fn law_history_only_grows(
    clients: Map<Seq<char>, ClientInfo>,
    ids: Map<Seq<char>, u64>,
    logs: Seq<(Seq<char>, Seq<u8>)>,
    message: Messages,
    now: u64,
    clients2: Map<Seq<char>, ClientInfo>,
    ids2: Map<Seq<char>, u64>,
    logs2: Seq<(Seq<char>, Seq<u8>)>,
    actions: Seq<ServerAction>,
)
    requires
        handles(clients, ids, logs, message, now, clients2, ids2, logs2, actions),
    ensures
        logs.len() <= logs2.len() <= logs.len() + 1,
        logs2.take(logs.len() as int) == logs,
{
    assert(logs2.take(logs.len() as int) =~= logs);
}

/// A connection that joins under a fresh token and then leaves puts the
/// clients back as they were, and its leaving is announced to exactly the
/// clients that were there before it.
pub proof fn law_leaving_undoes_joining(
    clients: Map<Seq<char>, ClientInfo>,
    ids: Map<Seq<char>, u64>,
    logs: Seq<(Seq<char>, Seq<u8>)>,
    client: ClientInfo,
    token: SharedToken,
    now1: u64,
    clients1: Map<Seq<char>, ClientInfo>,
    ids1: Map<Seq<char>, u64>,
    logs1: Seq<(Seq<char>, Seq<u8>)>,
    actions1: Seq<ServerAction>,
    other: ClientInfo,
    now2: u64,
    clients2: Map<Seq<char>, ClientInfo>,
    ids2: Map<Seq<char>, u64>,
    logs2: Seq<(Seq<char>, Seq<u8>)>,
    actions2: Seq<ServerAction>,
)
    requires
        ids.dom() == clients.dom(),
        !clients.contains_key(token@),
        forall|k: Seq<char>| #[trigger] ids.contains_key(k) ==> ids[k] != token.id,
        handles(
            clients,
            ids,
            logs,
            Messages::ClientConnected { client: client, token: token },
            now1,
            clients1,
            ids1,
            logs1,
            actions1,
        ),
        handles(
            clients1,
            ids1,
            logs1,
            Messages::ClientDisconnected { client: other, token: token },
            now2,
            clients2,
            ids2,
            logs2,
            actions2,
        ),
    ensures
        clients2 == clients,
        ids2 == ids,
        logs2 == logs,
        actions2.len() == 2,
        is_print(actions2[0], left_line(client.addr@)),
        is_broadcast(actions2[1], clients.dom(), encode_utf8(left_notice(client.addr@))),
{
    assert(clients1.contains_key(token@));
    assert(clients2 =~= clients);
    assert(ids2 =~= ids);
    assert(others_of(ids1, token.id) =~= clients.dom());
}

/// Once a client's message has been accepted, another message of that
/// client arriving less than the send interval later is refused as too
/// fast, and changes nothing.
pub proof fn law_rate_limited(
    clients: Map<Seq<char>, ClientInfo>,
    ids: Map<Seq<char>, u64>,
    logs: Seq<(Seq<char>, Seq<u8>)>,
    token: SharedToken,
    first: Vec<u8>,
    now1: u64,
    clients1: Map<Seq<char>, ClientInfo>,
    ids1: Map<Seq<char>, u64>,
    logs1: Seq<(Seq<char>, Seq<u8>)>,
    actions1: Seq<ServerAction>,
    second: Vec<u8>,
    now2: u64,
    clients2: Map<Seq<char>, ClientInfo>,
    ids2: Map<Seq<char>, u64>,
    logs2: Seq<(Seq<char>, Seq<u8>)>,
    actions2: Seq<ServerAction>,
)
    requires
        handles(
            clients,
            ids,
            logs,
            Messages::NewMessage { token: token, message: first },
            now1,
            clients1,
            ids1,
            logs1,
            actions1,
        ),
        logs1.len() > logs.len(),
        handles(
            clients1,
            ids1,
            logs1,
            Messages::NewMessage { token: token, message: second },
            now2,
            clients2,
            ids2,
            logs2,
            actions2,
        ),
        valid_utf8(second@),
        (now2 as int) < now1 + SEND_INTERVAL_NANOS,
    ensures
        clients2 == clients1,
        ids2 == ids1,
        logs2 == logs1,
        actions2.len() == 1,
        is_print_error(actions2[0], too_fast_line()),
{
    assert(clients1[token@].last_sent == now1);
}

/// How a private value is shown does not depend on the value.
pub proof fn law_hidden_ignores_value(x: Seq<char>, y: Seq<char>)
    ensures
        shown(x) == shown(y),
{
}

/// While the safe mode is on, every private value shows as `[HIDDEN]`.
pub proof fn law_hidden_text(x: Seq<char>)
    ensures
        shown(x) == seq!['[', 'H', 'I', 'D', 'D', 'E', 'N', ']'],
{
    reveal_strlit("[HIDDEN]");
    assert(shown(x) =~= seq!['[', 'H', 'I', 'D', 'D', 'E', 'N', ']']);
}

/// A chat line names its sender by the whole address: `Private(`, the
/// address, `): `, the shown text and a newline, nothing cut.
pub proof fn law_chat_line_shows_whole_address(addr: Seq<char>, text: Seq<char>)
    ensures
        chat_line(addr, text).len() == addr.len() + 12 + shown(text).len(),
        chat_line(addr, text).take(8) == seq!['P', 'r', 'i', 'v', 'a', 't', 'e', '('],
        chat_line(addr, text).subrange(8, 8 + addr.len() as int) == addr,
        chat_line(addr, text).subrange(8 + addr.len() as int, 11 + addr.len() as int) == seq![
            ')',
            ':',
            ' ',
        ],
        chat_line(addr, text).subrange(
            11 + addr.len() as int,
            11 + addr.len() as int + shown(text).len() as int,
        ) == shown(text),
        chat_line(addr, text).last() == '\n',
{
    reveal_strlit("Private(");
    reveal_strlit("): ");
    reveal_strlit("\n");
    let l = chat_line(addr, text);
    let n = addr.len() as int;
    assert(l.take(8) =~= seq!['P', 'r', 'i', 'v', 'a', 't', 'e', '(']);
    assert(l.subrange(8, 8 + n) =~= addr);
    assert(l.subrange(8 + n, 11 + n) =~= seq![')', ':', ' ']);
    assert(l.subrange(11 + n, 11 + n + shown(text).len() as int) =~= shown(text));
}

/// Distinct senders give distinct chat lines for the same text.
pub proof fn law_chat_line_tells_senders_apart(a1: Seq<char>, a2: Seq<char>, text: Seq<char>)
    requires
        chat_line(a1, text) == chat_line(a2, text),
    ensures
        a1 == a2,
{
    law_chat_line_shows_whole_address(a1, text);
    law_chat_line_shows_whole_address(a2, text);
}

/// The join and leave announcements: with the address hidden, they are
/// fixed texts.
pub proof fn law_announcements(addr: Seq<char>)
    ensures
        joined_line(addr) == " [HIDDEN] Successfully joined the server."@,
        joined_notice(addr) == "[HIDDEN] Successfully joined the server.\n"@,
        left_line(addr) == " [HIDDEN] disconnected"@,
        left_notice(addr) == " [HIDDEN] disconnected\n"@,
{
    reveal_strlit(" ");
    reveal_strlit("[HIDDEN]");
    reveal_strlit(" Successfully joined the server.");
    reveal_strlit(" Successfully joined the server.\n");
    reveal_strlit(" disconnected");
    reveal_strlit(" disconnected\n");
    reveal_strlit(" [HIDDEN] Successfully joined the server.");
    reveal_strlit("[HIDDEN] Successfully joined the server.\n");
    reveal_strlit(" [HIDDEN] disconnected");
    reveal_strlit(" [HIDDEN] disconnected\n");
    assert(joined_line(addr) =~= " [HIDDEN] Successfully joined the server."@);
    assert(joined_notice(addr) =~= "[HIDDEN] Successfully joined the server.\n"@);
    assert(left_line(addr) =~= " [HIDDEN] disconnected"@);
    assert(left_notice(addr) =~= " [HIDDEN] disconnected\n"@);
}

/// The tokens connected after `msgs`: each that joined and has not left
/// since.
pub open spec fn connected_after(msgs: Seq<Messages>) -> Set<Seq<char>>
    decreases msgs.len(),
{
    if msgs.len() == 0 {
        Set::empty()
    } else {
        let before = connected_after(msgs.drop_last());
        match msgs.last() {
            Messages::ClientConnected { client: _, token } => before.insert(token@),
            Messages::ClientDisconnected { client: _, token } => before.remove(token@),
            Messages::NewMessage { token: _, message: _ } => before,
        }
    }
}

/// `clients[i]`, `ids[i]` and `logs[i]` are the server's state before the
/// `i`-th message of `msgs`, received at `times[i]`, and `actions[i]` what
/// it did in answer; every message could be handled.
pub open spec fn is_run(
    clients: Seq<Map<Seq<char>, ClientInfo>>,
    ids: Seq<Map<Seq<char>, u64>>,
    logs: Seq<Seq<(Seq<char>, Seq<u8>)>>,
    msgs: Seq<Messages>,
    times: Seq<u64>,
    actions: Seq<Seq<ServerAction>>,
) -> bool {
    &&& clients.len() == msgs.len() + 1
    &&& ids.len() == msgs.len() + 1
    &&& logs.len() == msgs.len() + 1
    &&& times.len() == msgs.len()
    &&& actions.len() == msgs.len()
    &&& forall|i: int|
        0 <= i < msgs.len() ==> #[trigger] can_handle(clients[i], msgs[i]) && handles(
            clients[i],
            ids[i],
            logs[i],
            msgs[i],
            times[i],
            clients[i + 1],
            ids[i + 1],
            logs[i + 1],
            actions[i],
        )
}

proof fn lemma_connected_prefix(
    clients: Seq<Map<Seq<char>, ClientInfo>>,
    ids: Seq<Map<Seq<char>, u64>>,
    logs: Seq<Seq<(Seq<char>, Seq<u8>)>>,
    msgs: Seq<Messages>,
    times: Seq<u64>,
    actions: Seq<Seq<ServerAction>>,
    i: int,
)
    requires
        is_run(clients, ids, logs, msgs, times, actions),
        clients[0].dom() == Set::<Seq<char>>::empty(),
        0 <= i <= msgs.len(),
    ensures
        clients[i].dom() == connected_after(msgs.take(i)),
    decreases i,
{
    if i == 0 {
        assert(msgs.take(0) =~= Seq::<Messages>::empty());
    } else {
        lemma_connected_prefix(clients, ids, logs, msgs, times, actions, i - 1);
        let j = i - 1;
        assert(msgs.take(i).drop_last() =~= msgs.take(j));
        assert(msgs.take(i).last() == msgs[j]);
        assert(can_handle(clients[j], msgs[j]));
        let c = clients[j];
        let c2 = clients[i];
        match msgs[j] {
            Messages::ClientConnected { client, token } => {
                assert(c2.dom() =~= c.dom().insert(token@));
            },
            Messages::ClientDisconnected { client, token } => {
                assert(c2.dom() =~= c.dom().remove(token@));
            },
            Messages::NewMessage { token, message } => {
                assert(c2.dom() =~= c.dom());
            },
        }
    }
}

/// Starting with no client, the tokens connected after each message are
/// those that joined and have not left since.
pub proof fn law_connected_tokens(
    clients: Seq<Map<Seq<char>, ClientInfo>>,
    ids: Seq<Map<Seq<char>, u64>>,
    logs: Seq<Seq<(Seq<char>, Seq<u8>)>>,
    msgs: Seq<Messages>,
    times: Seq<u64>,
    actions: Seq<Seq<ServerAction>>,
)
    requires
        is_run(clients, ids, logs, msgs, times, actions),
        clients[0] == Map::<Seq<char>, ClientInfo>::empty(),
    ensures
        forall|i: int|
            0 <= i <= msgs.len() ==> (#[trigger] clients[i]).dom() == connected_after(msgs.take(i)),
{
    assert(clients[0].dom() =~= Set::<Seq<char>>::empty());
    assert forall|i: int| 0 <= i <= msgs.len() implies (#[trigger] clients[i]).dom() == connected_after(
        msgs.take(i),
    ) by {
        lemma_connected_prefix(clients, ids, logs, msgs, times, actions, i);
    }
}

/// The tokens that a list of recipients names.
pub open spec fn reached(recipients: Seq<Token>) -> Set<Seq<char>> {
    Set::new(|k: Seq<char>| exists|i: int| 0 <= i < recipients.len() && #[trigger] recipients[i]@ == k)
}

/// Two actions have the same effect on the outside world: the same text to
/// the same stream, or the same bytes to the same clients.
pub open spec fn same_effect(a: ServerAction, b: ServerAction) -> bool {
    match (a, b) {
        (ServerAction::Print(s), ServerAction::Print(t)) => s@ == t@,
        (ServerAction::PrintError(s), ServerAction::PrintError(t)) => s@ == t@,
        (
            ServerAction::Broadcast { recipients: r1, message: m1 },
            ServerAction::Broadcast { recipients: r2, message: m2 },
        ) => reached(r1@) == reached(r2@) && m1@ == m2@,
        _ => false,
    }
}

/// Two messages are alike but for the text of a chat line, both texts
/// being valid UTF-8.
pub open spec fn alike_but_text(m1: Messages, m2: Messages) -> bool {
    match (m1, m2) {
        (
            Messages::NewMessage { token: t1, message: b1 },
            Messages::NewMessage { token: t2, message: b2 },
        ) => t1 == t2 && valid_utf8(b1@) && valid_utf8(b2@),
        _ => m1 == m2,
    }
}

proof fn lemma_reached(r: Seq<Token>, keys: Set<Seq<char>>)
    requires
        lists_exactly(r, keys),
    ensures
        reached(r) == keys,
{
    assert forall|k: Seq<char>| #[trigger] reached(r).contains(k) == keys.contains(k) by {
        if reached(r).contains(k) {
            let i = choose|i: int| 0 <= i < r.len() && #[trigger] r[i]@ == k;
        }
        if keys.contains(k) {
            let i = choose|i: int| 0 <= i < r.len() && #[trigger] r[i]@ == k;
            assert(reached(r).contains(k));
        }
    }
    assert(reached(r) =~= keys);
}

proof fn lemma_same_effect(a: ServerAction, b: ServerAction, to: Set<Seq<char>>, m: Seq<u8>)
    requires
        is_broadcast(a, to, m),
        is_broadcast(b, to, m),
    ensures
        same_effect(a, b),
{
    if let ServerAction::Broadcast { recipients: r1, message: _ } = a {
        if let ServerAction::Broadcast { recipients: r2, message: _ } = b {
            lemma_reached(r1@, to);
            lemma_reached(r2@, to);
        }
    }
}

proof fn lemma_step_hides_text(
    clients: Map<Seq<char>, ClientInfo>,
    ids: Map<Seq<char>, u64>,
    logs: Seq<(Seq<char>, Seq<u8>)>,
    m1: Messages,
    m2: Messages,
    now: u64,
    clients1: Map<Seq<char>, ClientInfo>,
    ids1: Map<Seq<char>, u64>,
    logs1: Seq<(Seq<char>, Seq<u8>)>,
    actions1: Seq<ServerAction>,
    clients2: Map<Seq<char>, ClientInfo>,
    ids2: Map<Seq<char>, u64>,
    logs2: Seq<(Seq<char>, Seq<u8>)>,
    actions2: Seq<ServerAction>,
)
    requires
        alike_but_text(m1, m2),
        handles(clients, ids, logs, m1, now, clients1, ids1, logs1, actions1),
        handles(clients, ids, logs, m2, now, clients2, ids2, logs2, actions2),
    ensures
        clients1 == clients2,
        ids1 == ids2,
        logs1 == logs2,
        actions1.len() == actions2.len(),
        forall|j: int| 0 <= j < actions1.len() ==> same_effect(#[trigger] actions1[j], actions2[j]),
{
    match m1 {
        Messages::ClientConnected { client, token } => {
            if !clients.contains_key(token@) {
                lemma_same_effect(
                    actions1[1],
                    actions2[1],
                    others_of(ids, token.id),
                    encode_utf8(joined_notice(client.addr@)),
                );
            }
        },
        Messages::ClientDisconnected { client: _, token } => {
            if clients.contains_key(token@) {
                lemma_same_effect(
                    actions1[1],
                    actions2[1],
                    others_of(ids, token.id),
                    encode_utf8(left_notice(clients[token@].addr@)),
                );
            }
        },
        Messages::NewMessage { token, message: b1 } => {
            let b2 = m2->NewMessage_message;
            let c = clients[token@];
            if m1 == m2 {
                if valid_utf8(b1@) && role_permissions(c.role).send && !too_soon(c.last_sent, now) {
                    lemma_same_effect(
                        actions1[1],
                        actions2[1],
                        others_of(ids, token.id),
                        encode_utf8(chat_line(c.addr@, decode_utf8(b1@))),
                    );
                }
            } else {
                assert(chat_line(c.addr@, decode_utf8(b1@)) == chat_line(c.addr@, decode_utf8(b2@)));
                if role_permissions(c.role).send && !too_soon(c.last_sent, now) {
                    lemma_same_effect(
                        actions1[1],
                        actions2[1],
                        others_of(ids, token.id),
                        encode_utf8(chat_line(c.addr@, decode_utf8(b1@))),
                    );
                }
            }
        },
    }
}

/// While the safe mode is on, the text of a chat line never reaches
/// anyone: two runs from the same state, at the same times, on messages
/// that differ only in the (valid) text of chat lines, go through the same
/// states, log the same lines and print and send the same things.
pub proof fn law_text_never_shown(
    clients1: Seq<Map<Seq<char>, ClientInfo>>,
    ids1: Seq<Map<Seq<char>, u64>>,
    logs1: Seq<Seq<(Seq<char>, Seq<u8>)>>,
    msgs1: Seq<Messages>,
    actions1: Seq<Seq<ServerAction>>,
    clients2: Seq<Map<Seq<char>, ClientInfo>>,
    ids2: Seq<Map<Seq<char>, u64>>,
    logs2: Seq<Seq<(Seq<char>, Seq<u8>)>>,
    msgs2: Seq<Messages>,
    actions2: Seq<Seq<ServerAction>>,
    times: Seq<u64>,
)
    requires
        is_run(clients1, ids1, logs1, msgs1, times, actions1),
        is_run(clients2, ids2, logs2, msgs2, times, actions2),
        clients1[0] == clients2[0],
        ids1[0] == ids2[0],
        logs1[0] == logs2[0],
        forall|i: int| 0 <= i < msgs1.len() ==> alike_but_text(#[trigger] msgs1[i], msgs2[i]),
    ensures
        forall|i: int|
            0 <= i <= msgs1.len() ==> #[trigger] clients1[i] == clients2[i] && ids1[i] == ids2[i]
                && logs1[i] == logs2[i],
        forall|i: int|
            0 <= i < msgs1.len() ==> (#[trigger] actions1[i]).len() == actions2[i].len(),
        forall|i: int, j: int|
            0 <= i < msgs1.len() && 0 <= j < actions1[i].len() ==> same_effect(
                #[trigger] actions1[i][j],
                actions2[i][j],
            ),
{
    lemma_runs_agree(clients1, ids1, logs1, msgs1, actions1, clients2, ids2, logs2, msgs2, actions2, times, msgs1.len() as int);
    assert forall|i: int| 0 <= i <= msgs1.len() implies #[trigger] clients1[i] == clients2[i] && ids1[i] == ids2[i]
        && logs1[i] == logs2[i] by {
        lemma_runs_agree(clients1, ids1, logs1, msgs1, actions1, clients2, ids2, logs2, msgs2, actions2, times, i);
    }
    assert forall|i: int| 0 <= i < msgs1.len() implies (#[trigger] actions1[i]).len() == actions2[i].len()
        && forall|j: int| 0 <= j < actions1[i].len() ==> same_effect(#[trigger] actions1[i][j], actions2[i][j]) by {
        lemma_runs_agree(clients1, ids1, logs1, msgs1, actions1, clients2, ids2, logs2, msgs2, actions2, times, i);
        assert(can_handle(clients1[i], msgs1[i]));
        assert(can_handle(clients2[i], msgs2[i]));
        lemma_step_hides_text(
            clients1[i],
            ids1[i],
            logs1[i],
            msgs1[i],
            msgs2[i],
            times[i],
            clients1[i + 1],
            ids1[i + 1],
            logs1[i + 1],
            actions1[i],
            clients2[i + 1],
            ids2[i + 1],
            logs2[i + 1],
            actions2[i],
        );
    }
}

proof fn lemma_runs_agree(
    clients1: Seq<Map<Seq<char>, ClientInfo>>,
    ids1: Seq<Map<Seq<char>, u64>>,
    logs1: Seq<Seq<(Seq<char>, Seq<u8>)>>,
    msgs1: Seq<Messages>,
    actions1: Seq<Seq<ServerAction>>,
    clients2: Seq<Map<Seq<char>, ClientInfo>>,
    ids2: Seq<Map<Seq<char>, u64>>,
    logs2: Seq<Seq<(Seq<char>, Seq<u8>)>>,
    msgs2: Seq<Messages>,
    actions2: Seq<Seq<ServerAction>>,
    times: Seq<u64>,
    i: int,
)
    requires
        is_run(clients1, ids1, logs1, msgs1, times, actions1),
        is_run(clients2, ids2, logs2, msgs2, times, actions2),
        clients1[0] == clients2[0],
        ids1[0] == ids2[0],
        logs1[0] == logs2[0],
        forall|k: int| 0 <= k < msgs1.len() ==> alike_but_text(#[trigger] msgs1[k], msgs2[k]),
        0 <= i <= msgs1.len(),
    ensures
        clients1[i] == clients2[i],
        ids1[i] == ids2[i],
        logs1[i] == logs2[i],
    decreases i,
{
    if i > 0 {
        let j = i - 1;
        lemma_runs_agree(clients1, ids1, logs1, msgs1, actions1, clients2, ids2, logs2, msgs2, actions2, times, j);
        assert(can_handle(clients1[j], msgs1[j]));
        assert(can_handle(clients2[j], msgs2[j]));
        assert(alike_but_text(msgs1[j], msgs2[j]));
        lemma_step_hides_text(
            clients1[j],
            ids1[j],
            logs1[j],
            msgs1[j],
            msgs2[j],
            times[j],
            clients1[i],
            ids1[i],
            logs1[i],
            actions1[j],
            clients2[i],
            ids2[i],
            logs2[i],
            actions2[j],
        );
    }
}

/// How a private value is shown: `[HIDDEN]` while the safe mode is on.
pub fn shown_text(inner: &str) -> (s: String)
    ensures
        s@ == shown(inner@),
{
    if SAFE_MODE {
        string_of("[HIDDEN]")
    } else {
        string_of(inner)
    }
}

fn joined_texts(addr: &String) -> (r: (String, String))
    ensures
        r.0@ == joined_line(addr@),
        r.1@ == joined_notice(addr@),
{
    let mut line = string_of(" ");
    push_str(&mut line, shown_text(addr.as_str()).as_str());
    push_str(&mut line, " Successfully joined the server.");
    let mut notice = shown_text(addr.as_str());
    push_str(&mut notice, " Successfully joined the server.\n");
    (line, notice)
}

fn left_texts(addr: &String) -> (r: (String, String))
    ensures
        r.0@ == left_line(addr@),
        r.1@ == left_notice(addr@),
{
    let mut line = string_of(" ");
    push_str(&mut line, shown_text(addr.as_str()).as_str());
    push_str(&mut line, " disconnected");
    let mut notice = string_of(" ");
    push_str(&mut notice, shown_text(addr.as_str()).as_str());
    push_str(&mut notice, " disconnected\n");
    (line, notice)
}

fn chat_text(addr: &String, text: &String) -> (s: String)
    ensures
        s@ == chat_line(addr@, text@),
{
    let mut s = string_of("Private(");
    push_str(&mut s, addr.as_str());
    push_str(&mut s, "): ");
    push_str(&mut s, shown_text(text.as_str()).as_str());
    push_str(&mut s, "\n");
    s
}

/// A record of clients kept aside; the server does not consult it.
#[derive(Debug, Clone)]
pub struct ServerCache {
    clients: ClientMap,
    use_cache: bool,
}

impl ServerCache {
    /// The clients held aside.
    pub closed spec fn cached(&self) -> Map<Seq<char>, ClientInfo> {
        self.clients@
    }

    /// Whether the cache is switched on.
    pub closed spec fn enabled(&self) -> bool {
        self.use_cache
    }
}

impl Default for ServerCache {
    fn default() -> (c: Self)
        ensures
            c.cached() == Map::<Seq<char>, ClientInfo>::empty(),
            !c.enabled(),
    {
        ServerCache { clients: ClientMap::new(), use_cache: false }
    }
}

/// The server's state: its own token, the connected clients and the lines
/// relayed so far.
#[derive(Debug, Clone)]
pub struct ServerManager {
    pub server_token: Token,
    pub clients: ClientMap,
    pub logs: MessagesHistory,
    pub cache: ServerCache,
}

impl ServerManager {
    /// A server with no client and an empty history.
    pub fn new(server_token: Token) -> (m: Self)
        ensures
            m.server_token == server_token,
            m.clients@ == Map::<Seq<char>, ClientInfo>::empty(),
            m.logs@ == Seq::<(Seq<char>, Seq<u8>)>::empty(),
            m.cache.cached() == Map::<Seq<char>, ClientInfo>::empty(),
            !m.cache.enabled(),
    {
        ServerManager {
            server_token,
            clients: ClientMap::new(),
            logs: MessagesHistory::new(),
            cache: ServerCache::default(),
        }
    }

    fn add_client(&mut self, client: ClientInfo, token: SharedToken) -> (prev: Option<ClientInfo>)
        ensures
            final(self).clients@ == old(self).clients@.insert(token@, client),
            final(self).clients.key_ids() == if old(self).clients@.contains_key(token@) {
                old(self).clients.key_ids()
            } else {
                old(self).clients.key_ids().insert(token@, token.id)
            },
            prev is None <==> !old(self).clients@.contains_key(token@),
            prev matches Some(c) ==> c == old(self).clients@[token@],
            final(self).server_token == old(self).server_token,
            final(self).logs == old(self).logs,
            final(self).cache == old(self).cache,
    {
        self.clients.insert(token, client)
    }

    fn remove_client(&mut self, token: &Token)
        ensures
            final(self).clients@ == old(self).clients@.remove(token@),
            final(self).clients.key_ids() == old(self).clients.key_ids().remove(token@),
            final(self).server_token == old(self).server_token,
            final(self).logs == old(self).logs,
            final(self).cache == old(self).cache,
    {
        self.clients.remove(token);
    }

    /// Sends `message` to every client of `clients` whose token was put in
    /// by another connection than the one holding `client_token`.
    pub fn broadcast(&self, clients: &ClientMap, client_token: &SharedToken, message: Vec<u8>) -> (a:
        ServerAction)
        ensures
            is_broadcast(a, others_of(clients.key_ids(), client_token.id), message@),
    {
        ServerAction::Broadcast { recipients: clients.tokens_except(client_token), message }
    }

    /// Handles one message received at `now` (nanoseconds on the server's
    /// monotonic clock) and says what to print and send, in order.
    pub fn handle_message(&mut self, message: Messages, now: u64) -> (actions: Vec<ServerAction>)
        requires
            can_handle(old(self).clients@, message),
        ensures
            final(self).server_token == old(self).server_token,
            final(self).cache == old(self).cache,
            handles(
                old(self).clients@,
                old(self).clients.key_ids(),
                old(self).logs@,
                message,
                now,
                final(self).clients@,
                final(self).clients.key_ids(),
                final(self).logs@,
                actions@,
            ),
    {
        match message {
            Messages::ClientConnected { client, token } => {
                let (line, notice) = joined_texts(&client.addr);
                let b = self.broadcast(&self.clients, &token, to_bytes(&notice));
                if self.add_client(client, token).is_none() {
                    vec![ServerAction::Print(line), b]
                } else {
                    Vec::new()
                }
            },
            Messages::ClientDisconnected { client: _, token } => {
                match self.clients.get(&token.token) {
                    Some(c) => {
                        let (line, notice) = left_texts(&c.addr);
                        let b = self.broadcast(&self.clients, &token, to_bytes(&notice));
                        self.remove_client(&token.token);
                        vec![ServerAction::Print(line), b]
                    },
                    None => Vec::new(),
                }
            },
            Messages::NewMessage { token, message } => {
                match read_text(&message) {
                    Ok(msg) => {
                        let c = self.clients.get(&token.token).unwrap();
                        if !c.role.permissions().send {
                            return vec![ServerAction::PrintError(string_of("this client can't send messages"))];
                        }
                        if now < c.last_sent || now - c.last_sent < SEND_INTERVAL_NANOS {
                            return vec![ServerAction::PrintError(string_of("Client is sending messages too fast"))];
                        }
                        let line = chat_text(&c.addr, &msg);
                        let b = self.broadcast(&self.clients, &token, to_bytes(&line));
                        self.clients.set_last_sent(&token.token, now);
                        self.logs.append(token.token, to_bytes(&line));
                        vec![ServerAction::Print(line), b]
                    },
                    Err(e) => vec![ServerAction::PrintError(conversion_error(&e))],
                }
            },
        }
    }
}

impl Default for ServerManager {
    fn default() -> (m: Self)
        ensures
            m.server_token@ == Seq::<char>::empty(),
            m.clients@ == Map::<Seq<char>, ClientInfo>::empty(),
            m.logs@ == Seq::<(Seq<char>, Seq<u8>)>::empty(),
            m.cache.cached() == Map::<Seq<char>, ClientInfo>::empty(),
            !m.cache.enabled(),
    {
        ServerManager::new(Token(String::new()))
    }
}

} // verus!
