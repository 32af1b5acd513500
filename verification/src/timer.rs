//! The periodic delivery of waiting messages. On each tick, every
//! conversation whose sender is signed in on a client that has an open
//! channel is written out as one text for that client, and its messages are
//! stored; such conversations stop waiting, the others keep waiting.
use vstd::prelude::*;
use crate::text::{signed_decimal, push_char, push_signed_decimal};
use crate::state::{
    OnlineUsers,
    OnlineUserView,
    PendingMessages,
    ConversationView,
    PendingMessageView,
    Conversation,
    PendingMessage,
    conversation_view,
    pending_message_view,
    first_client_of,
    select,
};
use crate::requests::{StoredMessage, StoredMessageView, stored_views};
use crate::command_manager::message_rows;

verus! {

/// A text for one client, and the messages it carries, to be stored.
pub struct Delivery {
    pub client: u16,
    pub text: String,
    pub rows: Vec<StoredMessage>,
}

pub type DeliveryView = (u16, Seq<char>, Seq<StoredMessageView>);

impl View for Delivery {
    type V = DeliveryView;

    open spec fn view(&self) -> DeliveryView {
        (self.client, self.text@, stored_views(self.rows@))
    }
}

pub open spec fn delivery_views(v: Seq<Delivery>) -> Seq<DeliveryView> {
    v.map_values(|d: Delivery| d@)
}

/// Whether a conversation goes out on this tick: its sender is signed in,
/// and the first client signed in under the sender's account has an open
/// channel.
pub open spec fn deliverable(e: ConversationView, users: Seq<OnlineUserView>, open: Seq<u16>) -> bool {
    match first_client_of(users, e.0.0) {
        Some(c) => open.contains(c),
        None => false,
    }
}

/// For each conversation, whether it goes out.
pub open spec fn delivery_flags(
    s: Seq<ConversationView>,
    users: Seq<OnlineUserView>,
    open: Seq<u16>,
) -> Seq<bool> {
    s.map_values(|e: ConversationView| deliverable(e, users, open))
}

/// The messages of a conversation as delivered: each on a line, a reply
/// after `replied to <id>: `.
pub open spec fn delivery_body(m: Seq<PendingMessageView>) -> Seq<char>
    decreases m.len(),
{
    if m.len() == 0 {
        Seq::empty()
    } else {
        delivery_body(m.drop_last()) + match m.last().1 {
            Some(r) => "replied to "@ + signed_decimal(r as int) + ": "@ + m.last().0 + seq!['\n'],
            None => m.last().0 + seq!['\n'],
        }
    }
}

/// What goes out for a conversation.
pub open spec fn delivery_of(e: ConversationView, users: Seq<OnlineUserView>) -> DeliveryView {
    (
        first_client_of(users, e.0.0)->0,
        "Message from "@ + signed_decimal(e.0.0 as int) + ":\n"@ + delivery_body(e.1),
        message_rows(e.0.0, e.0.1, e.1),
    )
}

/// What goes out on a tick, in the order of the conversations.
pub open spec fn deliveries(s: Seq<ConversationView>, users: Seq<OnlineUserView>, open: Seq<u16>) -> Seq<
    DeliveryView,
>
    decreases s.len(),
{
    if s.len() == 0 {
        Seq::empty()
    } else {
        let rest = deliveries(s.drop_last(), users, open);
        if deliverable(s.last(), users, open) {
            rest.push(delivery_of(s.last(), users))
        } else {
            rest
        }
    }
}

fn contains_client(open: &Vec<u16>, client: u16) -> (r: bool)
    ensures
        r == open@.contains(client),
{
    let mut i: usize = 0;
    while i < open.len()
        invariant
            0 <= i <= open@.len(),
            forall|j: int| 0 <= j < i ==> open@[j] != client,
        decreases open.len() - i,
    {
        if open[i] == client {
            assert(open@[i as int] == client);
            return true;
        }
        i = i + 1;
    }
    false
}

/// The text and rows for one conversation.
fn render(sender: i32, receiver: i32, messages: &Vec<PendingMessage>, text: &mut String) -> (rows:
    Vec<StoredMessage>)
    ensures
        final(text)@ == old(text)@ + delivery_body(
            messages@.map_values(|m: PendingMessage| pending_message_view(m)),
        ),
        stored_views(rows@) == message_rows(
            sender,
            receiver,
            messages@.map_values(|m: PendingMessage| pending_message_view(m)),
        ),
{
    let ghost all = messages@.map_values(|m: PendingMessage| pending_message_view(m));
    let ghost start = text@;
    let mut rows: Vec<StoredMessage> = Vec::new();
    let mut j: usize = 0;
    while j < messages.len()
        invariant
            0 <= j <= messages@.len(),
            all == messages@.map_values(|m: PendingMessage| pending_message_view(m)),
            text@ == start + delivery_body(all.take(j as int)),
            stored_views(rows@) == message_rows(sender, receiver, all.take(j as int)),
        decreases messages.len() - j,
    {
        let ghost rows_before = rows@;
        let (content, reply) = (&messages[j].0, messages[j].1);
        match reply {
            Some(r) => {
                text.append("replied to ");
                push_signed_decimal(text, r as i64);
                text.append(": ");
                text.append(content.as_str());
                push_char(text, '\n');
            },
            None => {
                text.append(content.as_str());
                push_char(text, '\n');
            },
        }
        rows.push(
            StoredMessage {
                sender_id: sender,
                receiver_id: receiver,
                content: content.clone(),
                reply_to: reply,
            },
        );
        proof {
            let next = all.take(j + 1);
            assert(next.drop_last() =~= all.take(j as int));
            assert(next.last() == all[j as int]);
            assert(all[j as int] == pending_message_view(messages@[j as int]));
            assert(text@ =~= start + delivery_body(next));
            assert(stored_views(rows@) =~= stored_views(rows_before).push(rows@[rows@.len() - 1]@));
            assert(stored_views(rows@) =~= message_rows(sender, receiver, next));
        }
        j = j + 1;
    }
    assert(all.take(messages@.len() as int) =~= all);
    rows
}

/// One tick of delivery, for the signed-in `users` and the clients with an
/// open channel: gives what goes out, in order, and leaves waiting only the
/// conversations that did not go out.
pub fn deliver_pending(users: &OnlineUsers, pending: &mut PendingMessages, open_clients: &Vec<u16>) -> (out:
    Vec<Delivery>)
    ensures
        final(pending)@ == select(
            old(pending)@,
            delivery_flags(old(pending)@, users@, open_clients@),
            false,
        ),
        delivery_views(out@) == deliveries(old(pending)@, users@, open_clients@),
{
    let ghost all = pending@;
    let entries = pending.entries();
    let mut flags: Vec<bool> = Vec::new();
    let mut out: Vec<Delivery> = Vec::new();
    let mut i: usize = 0;
    while i < entries.len()
        invariant
            0 <= i <= entries@.len(),
            entries@.map_values(|c: Conversation| conversation_view(c)) == all,
            flags@ == delivery_flags(all, users@, open_clients@).take(i as int),
            delivery_views(out@) == deliveries(all.take(i as int), users@, open_clients@),
        decreases entries.len() - i,
    {
        let entry = &entries[i];
        let ghost e = all[i as int];
        assert(e == conversation_view(*entry));
        let ghost out_before = delivery_views(out@);
        let sender = entry.0.0;
        let mut goes = false;
        match users.client_of_user(sender) {
            Some(client) => {
                if contains_client(open_clients, client) {
                    let mut text = String::from_str("Message from ");
                    push_signed_decimal(&mut text, sender as i64);
                    text.append(":\n");
                    let rows = render(sender, entry.0.1, &entry.1, &mut text);
                    out.push(Delivery { client, text, rows });
                    goes = true;
                    proof {
                        assert(delivery_views(out@) =~= out_before.push(delivery_of(e, users@)));
                    }
                }
            },
            None => {},
        }
        flags.push(goes);
        proof {
            let next = all.take(i + 1);
            assert(next.drop_last() =~= all.take(i as int));
            assert(next.last() == e);
            assert(goes == deliverable(e, users@, open_clients@));
            assert(flags@ =~= delivery_flags(all, users@, open_clients@).take(i + 1));
            if !goes {
                assert(delivery_views(out@) == out_before);
            }
            assert(delivery_views(out@) == deliveries(next, users@, open_clients@));
        }
        i = i + 1;
    }
    assert(all.take(entries@.len() as int) =~= all);
    assert(flags@ =~= delivery_flags(all, users@, open_clients@));
    let _delivered = pending.split_off(&flags);
    out
}

/// A tick leaves waiting exactly the conversations it does not deliver: no
/// conversation is lost, none is both delivered and kept, and none that
/// could go out is kept.
pub proof fn lemma_tick_partitions(
    s: Seq<ConversationView>,
    users: Seq<OnlineUserView>,
    open: Seq<u16>,
)
    ensures
        select(s, delivery_flags(s, users, open), false).len() + deliveries(s, users, open).len()
            == s.len(),
        forall|e: ConversationView| #[trigger]
            select(s, delivery_flags(s, users, open), false).contains(e) <==> (s.contains(e)
                && !deliverable(e, users, open)),
    decreases s.len(),
{
    let f = delivery_flags(s, users, open);
    let kept = select(s, f, false);
    if s.len() > 0 {
        let front = s.drop_last();
        lemma_tick_partitions(front, users, open);
        assert(f.take(s.len() - 1) =~= delivery_flags(front, users, open));
        let kf = select(front, delivery_flags(front, users, open), false);
        assert(f[s.len() - 1] == deliverable(s.last(), users, open));
        assert forall|e: ConversationView| #[trigger] kept.contains(e) <==> (s.contains(e)
            && !deliverable(e, users, open)) by {
            if kept.contains(e) {
                let k = choose|k: int| 0 <= k < kept.len() && kept[k] == e;
                if deliverable(s.last(), users, open) {
                    assert(kept == kf);
                    assert(kf.contains(e));
                } else {
                    assert(kept == kf.push(s.last()));
                    if k < kf.len() {
                        assert(kf[k] == e);
                        assert(kf.contains(e));
                    } else {
                        assert(e == s.last());
                        assert(s[s.len() - 1] == e);
                    }
                }
                if kf.contains(e) {
                    let m = choose|m: int| 0 <= m < front.len() && front[m] == e;
                    assert(s[m] == e);
                }
            }
            if s.contains(e) && !deliverable(e, users, open) {
                let m = choose|m: int| 0 <= m < s.len() && s[m] == e;
                if m < s.len() - 1 {
                    assert(front[m] == e);
                    assert(front.contains(e));
                    assert(kf.contains(e));
                    let k = choose|k: int| 0 <= k < kf.len() && kf[k] == e;
                    if !deliverable(s.last(), users, open) {
                        assert(kept == kf.push(s.last()));
                        assert(kept[k] == e);
                    }
                } else {
                    assert(e == s.last());
                    assert(kept == kf.push(s.last()));
                    assert(kept[kf.len() as int] == e);
                }
            }
        }
    } else {
        assert(kept.len() == 0);
    }
}

/// In a delivered text each message is written by its own reply link: a
/// reply to `r` as `replied to <r>: ` then its text, any other message as
/// its text, each on a line of its own, in order: shown for one message,
/// and for messages cut anywhere in two.
pub proof fn lemma_delivery_lines(
    m: PendingMessageView,
    a: Seq<PendingMessageView>,
    b: Seq<PendingMessageView>,
)
    ensures
        delivery_body(seq![m]) == match m.1 {
            Some(r) => "replied to "@ + signed_decimal(r as int) + ": "@ + m.0 + seq!['\n'],
            None => m.0 + seq!['\n'],
        },
        delivery_body(a + b) == delivery_body(a) + delivery_body(b),
    decreases b.len(),
{
    assert(seq![m].drop_last() =~= Seq::<PendingMessageView>::empty());
    assert(delivery_body(seq![m].drop_last()) == Seq::<char>::empty());
    assert(seq![m].last() == m);
    let piece = match m.1 {
        Some(r) => "replied to "@ + signed_decimal(r as int) + ": "@ + m.0 + seq!['\n'],
        None => m.0 + seq!['\n'],
    };
    assert(Seq::<char>::empty() + piece =~= piece);
    if b.len() == 0 {
        assert(a + b =~= a);
        assert(delivery_body(a) + delivery_body(b) =~= delivery_body(a));
    } else {
        lemma_delivery_lines(m, a, b.drop_last());
        assert((a + b).drop_last() =~= a + b.drop_last());
        assert((a + b).last() == b.last());
        let last = b.last();
        let tail = match last.1 {
            Some(r) => "replied to "@ + signed_decimal(r as int) + ": "@ + last.0 + seq!['\n'],
            None => last.0 + seq!['\n'],
        };
        assert(delivery_body(a) + delivery_body(b.drop_last()) + tail =~= delivery_body(a)
            + delivery_body(b));
    }
}

} // verus!
