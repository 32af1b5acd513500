//! The state the server shares between its clients: who is signed in, and
//! the messages that wait to be delivered.
use vstd::prelude::*;

verus! {

/// A signed-in user: the account's id, the client (port) it is signed in
/// from, and the account's name.
pub type OnlineUser = (i32, u16, String);

/// The view of a signed-in user.
pub type OnlineUserView = (i32, u16, Seq<char>);

pub open spec fn online_user_view(u: OnlineUser) -> OnlineUserView {
    (u.0, u.1, u.2@)
}

/// Whether some signed-in user is signed in from `client`.
pub open spec fn client_online(s: Seq<OnlineUserView>, client: u16) -> bool {
    exists|i: int| 0 <= i < s.len() && (#[trigger] s[i]).1 == client
}

/// The place of the user signed in from `client` (meaningful where there
/// is one).
pub open spec fn client_index(s: Seq<OnlineUserView>, client: u16) -> int {
    choose|i: int| 0 <= i < s.len() && (#[trigger] s[i]).1 == client
}

/// `Vec::swap_remove`: the last entry takes the place of the removed one.
pub open spec fn swap_removed<T>(s: Seq<T>, i: int) -> Seq<T> {
    s.update(i, s.last()).drop_last()
}

/// The client of the first signed-in user with account `user_id`.
pub open spec fn first_client_of(s: Seq<OnlineUserView>, user_id: i32) -> Option<u16>
    decreases s.len(),
{
    if s.len() == 0 {
        None
    } else if s[0].0 == user_id {
        Some(s[0].1)
    } else {
        first_client_of(s.drop_first(), user_id)
    }
}

/// The entries of `s` whose flag is `want`, in order.
pub open spec fn select<A>(s: Seq<A>, flags: Seq<bool>, want: bool) -> Seq<A>
    decreases s.len(),
{
    if s.len() == 0 {
        Seq::empty()
    } else {
        let rest = select(s.drop_last(), flags.take(s.len() - 1), want);
        if flags[s.len() - 1] == want {
            rest.push(s.last())
        } else {
            rest
        }
    }
}

/// No client is signed in twice.
pub open spec fn clients_distinct(s: Seq<OnlineUserView>) -> bool {
    forall|i: int, j: int| 0 <= i < s.len() && 0 <= j < s.len() && i != j ==> s[i].1 != s[j].1
}

/// The users signed in, in the order they signed in (up to removals,
/// which move the last entry into the gap).
pub struct OnlineUsers {
    users: Vec<OnlineUser>,
}

impl View for OnlineUsers {
    type V = Seq<OnlineUserView>;

    closed spec fn view(&self) -> Seq<OnlineUserView> {
        self.users@.map_values(|u: OnlineUser| online_user_view(u))
    }
}

impl OnlineUsers {
    #[verifier::type_invariant]
    spec fn inv(self) -> bool {
        clients_distinct(self@)
    }

    /// Nobody signed in.
    pub fn new() -> (r: Self)
        ensures
            r@ == Seq::<OnlineUserView>::empty(),
    {
        let r = OnlineUsers { users: Vec::new() };
        assert(r@ =~= Seq::<OnlineUserView>::empty());
        r
    }

    /// The signed-in users.
    pub fn users(&self) -> (r: &Vec<OnlineUser>)
        ensures
            r@.map_values(|u: OnlineUser| online_user_view(u)) == self@,
    {
        &self.users
    }

    /// Where the user signed in from `client` stands, if there is one.
    pub fn position_of_client(&self, client: u16) -> (r: Option<usize>)
        ensures
            match r {
                Some(p) => p < self@.len() && self@[p as int].1 == client && p == client_index(
                    self@,
                    client,
                ),
                None => !client_online(self@, client),
            },
    {
        proof {
            use_type_invariant(self);
        }
        let mut i: usize = 0;
        while i < self.users.len()
            invariant
                0 <= i <= self.users@.len(),
                self@.len() == self.users@.len(),
                self@ == self.users@.map_values(|u: OnlineUser| online_user_view(u)),
                forall|j: int| 0 <= j < i ==> self@[j].1 != client,
                clients_distinct(self@),
            decreases self.users.len() - i,
        {
            if self.users[i].1 == client {
                proof {
                    let k = client_index(self@, client);
                    assert(self@[i as int].1 == client);
                    assert(0 <= k < self@.len() && self@[k].1 == client);
                    if k != i {
                        assert(clients_distinct(self@));
                    }
                }
                return Some(i);
            }
            i = i + 1;
        }
        None
    }

    /// Whether a user is signed in from `client`.
    pub fn is_online(&self, client: u16) -> (r: bool)
        ensures
            r == client_online(self@, client),
    {
        self.position_of_client(client).is_some()
    }

    /// The account signed in from `client`, if any.
    pub fn user_id_of(&self, client: u16) -> (r: Option<i32>)
        ensures
            match r {
                Some(id) => client_online(self@, client) && id == self@[client_index(
                    self@,
                    client,
                )].0,
                None => !client_online(self@, client),
            },
    {
        match self.position_of_client(client) {
            Some(p) => Some(self.users[p].0),
            None => None,
        }
    }

    /// The client that the first signed-in user with account `user_id` uses.
    pub fn client_of_user(&self, user_id: i32) -> (r: Option<u16>)
        ensures
            r == first_client_of(self@, user_id),
    {
        let mut i: usize = 0;
        assert(self@.skip(0) =~= self@);
        while i < self.users.len()
            invariant
                0 <= i <= self.users@.len(),
                self@.len() == self.users@.len(),
                self@ == self.users@.map_values(|u: OnlineUser| online_user_view(u)),
                first_client_of(self@, user_id) == first_client_of(self@.skip(i as int), user_id),
            decreases self.users.len() - i,
        {
            let ghost rest = self@.skip(i as int);
            assert(rest[0] == self@[i as int]);
            assert(rest.drop_first() =~= self@.skip(i + 1));
            if self.users[i].0 == user_id {
                return Some(self.users[i].1);
            }
            i = i + 1;
        }
        assert(self@.skip(i as int).len() == 0);
        None
    }

    /// Signs in account `user_id` named `name` from `client`, unless a user
    /// is signed in from `client` already; says whether it did.
    pub fn sign_in(&mut self, user_id: i32, client: u16, name: String) -> (r: bool)
        ensures
            r == !client_online(old(self)@, client),
            r ==> final(self)@ == old(self)@.push((user_id, client, name@)),
            !r ==> final(self)@ == old(self)@,
    {
        if self.is_online(client) {
            return false;
        }
        proof {
            use_type_invariant(&*self);
        }
        let mut users: Vec<OnlineUser> = Vec::new();
        std::mem::swap(&mut users, &mut self.users);
        let ghost before = users@.map_values(|u: OnlineUser| online_user_view(u));
        users.push((user_id, client, name));
        let ghost after = users@.map_values(|u: OnlineUser| online_user_view(u));
        assert(after =~= before.push((user_id, client, name@)));
        assert(clients_distinct(after)) by {
            assert forall|i: int, j: int|
                0 <= i < after.len() && 0 <= j < after.len() && i != j implies after[i].1
                != after[j].1 by {
                if i < before.len() && j < before.len() {
                    assert(after[i] == before[i] && after[j] == before[j]);
                } else if i < before.len() {
                    assert(after[i] == before[i]);
                } else {
                    assert(after[j] == before[j]);
                }
            }
        }
        self.users = users;
        true
    }

    /// Signs out the user signed in from `client`, if any; says whether
    /// there was one. The last entry moves into the gap.
    pub fn sign_out(&mut self, client: u16) -> (r: bool)
        ensures
            r == client_online(old(self)@, client),
            r ==> final(self)@ == swap_removed(old(self)@, client_index(old(self)@, client)),
            !r ==> final(self)@ == old(self)@,
            !client_online(final(self)@, client),
    {
        proof {
            use_type_invariant(&*self);
        }
        match self.position_of_client(client) {
            Some(pos) => {
                let mut users: Vec<OnlineUser> = Vec::new();
                std::mem::swap(&mut users, &mut self.users);
                let ghost before = users@.map_values(|u: OnlineUser| online_user_view(u));
                users.swap_remove(pos);
                let ghost after = users@.map_values(|u: OnlineUser| online_user_view(u));
                assert(after =~= swap_removed(before, pos as int));
                assert(clients_distinct(after)) by {
                    assert forall|i: int, j: int|
                        0 <= i < after.len() && 0 <= j < after.len() && i != j implies after[i].1
                        != after[j].1 by {
                        let oi = if i == pos {
                            before.len() - 1
                        } else {
                            i
                        };
                        let oj = if j == pos {
                            before.len() - 1
                        } else {
                            j
                        };
                        assert(after[i] == before[oi]);
                        assert(after[j] == before[oj]);
                    }
                }
                assert(!client_online(after, client)) by {
                    if client_online(after, client) {
                        let k = choose|k: int| 0 <= k < after.len() && (#[trigger] after[k]).1 == client;
                        let ok = if k == pos {
                            before.len() - 1
                        } else {
                            k
                        };
                        assert(after[k] == before[ok]);
                        assert(before[pos as int].1 == client);
                    }
                }
                self.users = users;
                true
            },
            None => false,
        }
    }
}

/// A message waiting for delivery: its text and, for a reply, the message
/// it answers.
pub type PendingMessage = (String, Option<i32>);

pub type PendingMessageView = (Seq<char>, Option<i32>);

/// The messages from one sender to one receiver, oldest first.
pub type Conversation = ((i32, i32), Vec<PendingMessage>);

pub type ConversationView = ((i32, i32), Seq<PendingMessageView>);

pub open spec fn pending_message_view(m: PendingMessage) -> PendingMessageView {
    (m.0@, m.1)
}

pub open spec fn conversation_view(c: Conversation) -> ConversationView {
    (c.0, c.1@.map_values(|m: PendingMessage| pending_message_view(m)))
}

/// Each (sender, receiver) pair has at most one entry, and every entry
/// holds a message.
pub open spec fn pending_well_formed(s: Seq<ConversationView>) -> bool {
    &&& forall|i: int, j: int| 0 <= i < s.len() && 0 <= j < s.len() && i != j ==> s[i].0 != s[j].0
    &&& forall|i: int| 0 <= i < s.len() ==> (#[trigger] s[i]).1.len() > 0
}

/// Whether some entry is for the pair `key`.
pub open spec fn has_key(s: Seq<ConversationView>, key: (i32, i32)) -> bool {
    exists|i: int| 0 <= i < s.len() && (#[trigger] s[i]).0 == key
}

/// The messages waiting from `key.0` to `key.1`, empty where there are
/// none.
pub open spec fn messages_for(s: Seq<ConversationView>, key: (i32, i32)) -> Seq<
    PendingMessageView,
> {
    if has_key(s, key) {
        s[choose|i: int| 0 <= i < s.len() && (#[trigger] s[i]).0 == key].1
    } else {
        Seq::empty()
    }
}

/// `s` after `message` is queued from `key.0` to `key.1`: appended to the
/// pair's entry where it has one, else in a new entry at the end.
pub open spec fn queued(s: Seq<ConversationView>, key: (i32, i32), message: PendingMessageView) -> Seq<
    ConversationView,
> {
    if has_key(s, key) {
        let i = choose|i: int| 0 <= i < s.len() && (#[trigger] s[i]).0 == key;
        s.update(i, (key, s[i].1.push(message)))
    } else {
        s.push((key, seq![message]))
    }
}

/// The messages that wait to be delivered, grouped by (sender, receiver).
///
/// A map from pair to messages, held as a `Vec` of entries whose pairs are
/// distinct (the type invariant) rather than as a `HashMap`: inbox listings
/// and delivery ticks walk over every entry, and a `HashMap` is walked in
/// an order that each process seeds at random, so nothing could be stated
/// of the text they build. The entries stand in the order their pairs first
/// got a message, which is one of the orders a `HashMap` walk can give.
pub struct PendingMessages {
    entries: Vec<Conversation>,
}

impl View for PendingMessages {
    type V = Seq<ConversationView>;

    closed spec fn view(&self) -> Seq<ConversationView> {
        self.entries@.map_values(|c: Conversation| conversation_view(c))
    }
}

impl PendingMessages {
    #[verifier::type_invariant]
    spec fn inv(self) -> bool {
        pending_well_formed(self@)
    }

    /// Nothing waiting.
    pub fn new() -> (r: Self)
        ensures
            r@ == Seq::<ConversationView>::empty(),
    {
        let r = PendingMessages { entries: Vec::new() };
        assert(r@ =~= Seq::<ConversationView>::empty());
        r
    }

    /// The entries, oldest pair first.
    pub fn entries(&self) -> (r: &Vec<Conversation>)
        ensures
            r@.map_values(|c: Conversation| conversation_view(c)) == self@,
    {
        &self.entries
    }

    /// Where the entry for `key` stands, if there is one.
    pub fn position_of(&self, key: (i32, i32)) -> (r: Option<usize>)
        ensures
            match r {
                Some(p) => p < self@.len() && self@[p as int].0 == key && p == choose|i: int|
                    0 <= i < self@.len() && (#[trigger] self@[i]).0 == key,
                None => !has_key(self@, key),
            },
    {
        proof {
            use_type_invariant(self);
        }
        let mut i: usize = 0;
        while i < self.entries.len()
            invariant
                0 <= i <= self.entries@.len(),
                self@.len() == self.entries@.len(),
                self@ == self.entries@.map_values(|c: Conversation| conversation_view(c)),
                forall|j: int| 0 <= j < i ==> self@[j].0 != key,
                pending_well_formed(self@),
            decreases self.entries.len() - i,
        {
            if self.entries[i].0.0 == key.0 && self.entries[i].0.1 == key.1 {
                proof {
                    assert(self@[i as int].0 == key);
                    let k = choose|k: int| 0 <= k < self@.len() && (#[trigger] self@[k]).0 == key;
                    assert(0 <= k < self@.len() && self@[k].0 == key);
                    if k != i {
                        assert(self@[k].0 != self@[i as int].0);
                    }
                }
                return Some(i);
            }
            i = i + 1;
        }
        None
    }

    /// Removes the entries whose flag is set, keeping the order of the
    /// others, and gives the removed ones in order.
    pub(crate) fn split_off(&mut self, remove: &Vec<bool>) -> (removed: Vec<Conversation>)
        requires
            remove@.len() == old(self)@.len(),
        ensures
            final(self)@ == select(old(self)@, remove@, false),
            removed@.map_values(|c: Conversation| conversation_view(c)) == select(
                old(self)@,
                remove@,
                true,
            ),
    {
        proof {
            use_type_invariant(&*self);
        }
        let mut entries: Vec<Conversation> = Vec::new();
        std::mem::swap(&mut entries, &mut self.entries);
        let ghost all = entries@.map_values(|c: Conversation| conversation_view(c));
        let mut kept: Vec<Conversation> = Vec::new();
        let mut removed: Vec<Conversation> = Vec::new();
        let mut rest = entries;
        // Walk the entries from the front: `rest` holds those not seen yet.
        let ghost n = all.len();
        let total = rest.len();
        assert(total == n);
        assert(all.skip(0) =~= all);
        assert(all.take(0) =~= Seq::<ConversationView>::empty());
        assert(remove@.take(0) =~= Seq::<bool>::empty());
        let mut i: usize = 0;
        while rest.len() > 0
            invariant
                i + rest@.len() == n,
                n == all.len(),
                n <= usize::MAX,
                remove@.len() == n,
                rest@.map_values(|c: Conversation| conversation_view(c)) == all.skip(i as int),
                kept@.map_values(|c: Conversation| conversation_view(c)) == select(
                    all.take(i as int),
                    remove@.take(i as int),
                    false,
                ),
                removed@.map_values(|c: Conversation| conversation_view(c)) == select(
                    all.take(i as int),
                    remove@.take(i as int),
                    true,
                ),
                pending_well_formed(all),
            decreases rest.len(),
        {
            let ghost kept_before = kept@.map_values(|c: Conversation| conversation_view(c));
            let ghost removed_before = removed@.map_values(|c: Conversation| conversation_view(c));
            let ghost rest_before = rest@;
            let entry = rest.remove(0);
            assert(conversation_view(entry) == all[i as int]) by {
                assert(all.skip(i as int)[0] == all[i as int]);
            }
            let ghost next = all.take(i + 1);
            let ghost next_flags = remove@.take(i + 1);
            assert(next.drop_last() =~= all.take(i as int));
            assert(next_flags.take(i as int) =~= remove@.take(i as int));
            assert(next.last() == all[i as int]);
            if remove[i] {
                removed.push(entry);
                assert(removed@.map_values(|c: Conversation| conversation_view(c))
                    =~= removed_before.push(all[i as int]));
            } else {
                kept.push(entry);
                assert(kept@.map_values(|c: Conversation| conversation_view(c))
                    =~= kept_before.push(all[i as int]));
            }
            assert(rest@.map_values(|c: Conversation| conversation_view(c)) =~= all.skip(i + 1)) by {
                assert(rest@ =~= rest_before.subrange(1, rest_before.len() as int));
                assert forall|k: int| 0 <= k < rest@.len() implies conversation_view(rest@[k])
                    == all.skip(i + 1)[k] by {
                    assert(rest@[k] == rest_before[k + 1]);
                    assert(rest_before.map_values(|c: Conversation| conversation_view(c))[k + 1]
                        == all.skip(i as int)[k + 1]);
                }
            }
            i = i + 1;
        }
        assert(all.take(n as int) =~= all);
        assert(remove@.take(n as int) =~= remove@);
        proof {
            lemma_select_keeps_well_formed(all, remove@);
        }
        self.entries = kept;
        removed
    }

    /// Queues `message` (a reply to `reply_to`, if given) from `key.0` to
    /// `key.1`.
    pub fn push(&mut self, key: (i32, i32), message: String, reply_to: Option<i32>)
        ensures
            final(self)@ == queued(old(self)@, key, (message@, reply_to)),
    {
        proof {
            use_type_invariant(&*self);
        }
        let pos = self.position_of(key);
        let mut entries: Vec<Conversation> = Vec::new();
        std::mem::swap(&mut entries, &mut self.entries);
        let ghost before = entries@.map_values(|c: Conversation| conversation_view(c));
        match pos {
            Some(p) => {
                let (k, mut messages) = entries.remove(p);
                let ghost old_messages = messages@.map_values(
                    |m: PendingMessage| pending_message_view(m),
                );
                messages.push((message, reply_to));
                assert(messages@.map_values(|m: PendingMessage| pending_message_view(m))
                    =~= old_messages.push((message@, reply_to)));
                entries.insert(p, (k, messages));
                let ghost after = entries@.map_values(|c: Conversation| conversation_view(c));
                assert(after =~= before.update(p as int, (key, before[p as int].1.push((message@, reply_to)))));
                assert(pending_well_formed(after)) by {
                    assert forall|i: int, j: int|
                        0 <= i < after.len() && 0 <= j < after.len() && i != j implies after[i].0
                        != after[j].0 by {
                        assert(after[i].0 == before[i].0);
                        assert(after[j].0 == before[j].0);
                    }
                    assert forall|i: int| 0 <= i < after.len() implies (#[trigger] after[i]).1.len()
                        > 0 by {
                        if i != p {
                            assert(after[i] == before[i]);
                        }
                    }
                }
            },
            None => {
                let mut messages: Vec<PendingMessage> = Vec::new();
                messages.push((message, reply_to));
                assert(messages@.map_values(|m: PendingMessage| pending_message_view(m))
                    =~= seq![(message@, reply_to)]);
                entries.push((key, messages));
                let ghost after = entries@.map_values(|c: Conversation| conversation_view(c));
                assert(after =~= before.push((key, seq![(message@, reply_to)])));
                assert(pending_well_formed(after)) by {
                    assert forall|i: int, j: int|
                        0 <= i < after.len() && 0 <= j < after.len() && i != j implies after[i].0
                        != after[j].0 by {
                        if i < before.len() {
                            assert(after[i] == before[i]);
                        }
                        if j < before.len() {
                            assert(after[j] == before[j]);
                        }
                    }
                    assert forall|i: int| 0 <= i < after.len() implies (#[trigger] after[i]).1.len()
                        > 0 by {
                        if i < before.len() {
                            assert(after[i] == before[i]);
                        }
                    }
                }
            },
        }
        self.entries = entries;
    }
}

/// Leaving out entries keeps a pair from having two entries and every
/// entry non-empty.
pub proof fn lemma_select_keeps_well_formed(s: Seq<ConversationView>, flags: Seq<bool>)
    requires
        pending_well_formed(s),
        flags.len() == s.len(),
    ensures
        pending_well_formed(select(s, flags, false)),
        pending_well_formed(select(s, flags, true)),
        forall|want: bool, e: ConversationView| #[trigger] select(s, flags, want).contains(e)
            ==> s.contains(e),
    decreases s.len(),
{
    if s.len() > 0 {
        let front = s.drop_last();
        let ff = flags.take(s.len() - 1);
        assert(pending_well_formed(front)) by {
            assert forall|i: int, j: int|
                0 <= i < front.len() && 0 <= j < front.len() && i != j implies front[i].0
                != front[j].0 by {
                assert(front[i] == s[i] && front[j] == s[j]);
            }
            assert forall|i: int| 0 <= i < front.len() implies (#[trigger] front[i]).1.len() > 0 by {
                assert(front[i] == s[i]);
            }
        }
        lemma_select_keeps_well_formed(front, ff);
        assert forall|want: bool, e: ConversationView| #[trigger] select(s, flags, want).contains(e)
            implies s.contains(e) by {
            let r = select(front, ff, want);
            if select(s, flags, want) != r {
                assert(select(s, flags, want) == r.push(s.last()));
                if e != s.last() {
                    let k = choose|k: int| 0 <= k < r.push(s.last()).len() && r.push(s.last())[k] == e;
                    assert(r.push(s.last())[k] == r[k]);
                    assert(r.contains(e));
                }
                assert(s[s.len() - 1] == s.last());
            } else {
                assert(r.contains(e));
            }
            if front.contains(e) {
                let k = choose|k: int| 0 <= k < front.len() && front[k] == e;
                assert(s[k] == e);
            }
        }
        assert forall|want: bool| pending_well_formed(#[trigger] select(s, flags, want)) by {
            let r = select(front, ff, want);
            if flags[s.len() - 1] == want {
                let t = r.push(s.last());
                assert forall|i: int, j: int|
                    0 <= i < t.len() && 0 <= j < t.len() && i != j implies t[i].0 != t[j].0 by {
                    if i < r.len() && j < r.len() {
                        assert(t[i] == r[i] && t[j] == r[j]);
                    } else if i < r.len() {
                        assert(t[i] == r[i]);
                        assert(r.contains(r[i]));
                        assert(select(front, ff, want).contains(r[i]));
                        let k = choose|k: int| 0 <= k < front.len() && front[k] == r[i];
                        assert(s[k] == front[k]);
                        assert(s[s.len() - 1] == t[j]);
                    } else {
                        assert(t[j] == r[j]);
                        assert(r.contains(r[j]));
                        assert(select(front, ff, want).contains(r[j]));
                        let k = choose|k: int| 0 <= k < front.len() && front[k] == r[j];
                        assert(s[k] == front[k]);
                        assert(s[s.len() - 1] == t[i]);
                    }
                }
                assert forall|i: int| 0 <= i < t.len() implies (#[trigger] t[i]).1.len() > 0 by {
                    if i < r.len() {
                        assert(t[i] == r[i]);
                    } else {
                        assert(s[s.len() - 1] == t[i]);
                    }
                }
            }
        }
        assert(pending_well_formed(select(s, flags, false)));
        assert(pending_well_formed(select(s, flags, true)));
    }
}

/// Queuing is appending: after `message` is queued from `key.0` to
/// `key.1`, that pair's waiting messages are the ones before followed by
/// `message`, and every other pair's are as they were.
pub proof fn lemma_queued_appends(
    s: Seq<ConversationView>,
    key: (i32, i32),
    message: PendingMessageView,
)
    requires
        pending_well_formed(s),
    ensures
        pending_well_formed(queued(s, key, message)),
        has_key(queued(s, key, message), key),
        messages_for(queued(s, key, message), key) == messages_for(s, key).push(message),
        forall|other: (i32, i32)|
            other != key ==> #[trigger] messages_for(queued(s, key, message), other)
                == messages_for(s, other),
{
    let t = queued(s, key, message);
    if has_key(s, key) {
        let i = choose|i: int| 0 <= i < s.len() && (#[trigger] s[i]).0 == key;
        assert(t == s.update(i, (key, s[i].1.push(message))));
        assert forall|a: int, b: int| 0 <= a < t.len() && 0 <= b < t.len() && a != b implies t[a].0
            != t[b].0 by {
            assert(t[a].0 == s[a].0 && t[b].0 == s[b].0);
        }
        assert forall|a: int| 0 <= a < t.len() implies (#[trigger] t[a]).1.len() > 0 by {
            if a != i {
                assert(t[a] == s[a]);
            }
        }
        assert(t[i].0 == key);
        let j = choose|j: int| 0 <= j < t.len() && (#[trigger] t[j]).0 == key;
        if j != i {
            assert(t[j].0 != t[i].0);
        }
        assert forall|other: (i32, i32)| other != key implies #[trigger] messages_for(t, other)
            == messages_for(s, other) by {
            if has_key(s, other) {
                let k = choose|k: int| 0 <= k < s.len() && (#[trigger] s[k]).0 == other;
                assert(t[k].0 == other);
                let k2 = choose|k2: int| 0 <= k2 < t.len() && (#[trigger] t[k2]).0 == other;
                if k2 != k {
                    assert(t[k2].0 != t[k].0);
                }
                assert(k != i);
            } else {
                if has_key(t, other) {
                    let k2 = choose|k2: int| 0 <= k2 < t.len() && (#[trigger] t[k2]).0 == other;
                    assert(s[k2].0 == other);
                }
            }
        }
    } else {
        assert(t == s.push((key, seq![message])));
        assert forall|a: int, b: int| 0 <= a < t.len() && 0 <= b < t.len() && a != b implies t[a].0
            != t[b].0 by {
            if a < s.len() && b < s.len() {
                assert(t[a] == s[a] && t[b] == s[b]);
            } else if a < s.len() {
                assert(t[a] == s[a]);
            } else {
                assert(t[b] == s[b]);
            }
        }
        assert forall|a: int| 0 <= a < t.len() implies (#[trigger] t[a]).1.len() > 0 by {
            if a < s.len() {
                assert(t[a] == s[a]);
            }
        }
        let last = s.len() as int;
        assert(t[last].0 == key);
        let j = choose|j: int| 0 <= j < t.len() && (#[trigger] t[j]).0 == key;
        if j != last {
            assert(t[j].0 != t[last].0);
        }
        assert(messages_for(s, key) =~= Seq::<PendingMessageView>::empty());
        assert(seq![message] =~= Seq::<PendingMessageView>::empty().push(message));
        assert forall|other: (i32, i32)| other != key implies #[trigger] messages_for(t, other)
            == messages_for(s, other) by {
            if has_key(s, other) {
                let k = choose|k: int| 0 <= k < s.len() && (#[trigger] s[k]).0 == other;
                assert(t[k].0 == other);
                let k2 = choose|k2: int| 0 <= k2 < t.len() && (#[trigger] t[k2]).0 == other;
                if k2 != k {
                    assert(t[k2].0 != t[k].0);
                }
            } else {
                if has_key(t, other) {
                    let k2 = choose|k2: int| 0 <= k2 < t.len() && (#[trigger] t[k2]).0 == other;
                    if k2 < s.len() {
                        assert(s[k2].0 == other);
                    }
                }
            }
        }
    }
}

} // verus!
