//! The client side: which server it talks to, what it sends of a typed
//! line, and which answer ends the session.
use vstd::prelude::*;
use crate::utils::{IP, ServerDetails};
use crate::text::{is_white_space, is_white_space_char};

verus! {

/// A chat client, set up with the address of its server.
pub struct ClientManager {
    server_info: ServerDetails,
}

impl ClientManager {
    /// The server this client talks to.
    pub closed spec fn server(&self) -> &ServerDetails {
        &self.server_info
    }

    /// A client for the server at `ip_address`:`port`.
    pub fn new(ip_address: IP, port: u16) -> (r: Self)
        ensures
            r.server().address() == ip_address,
            r.server().port_number() == port,
    {
        let sd = match ip_address {
            IP::V4(a, b, c, d) => ServerDetails::new_ipv4(a, b, c, d, port),
            IP::V6(a, b, c, d, e, f) => ServerDetails::new_ipv6(a, b, c, d, e, f, port),
        };
        Self { server_info: sd }
    }

    /// The server this client talks to.
    pub fn server_info(&self) -> (r: &ServerDetails)
        ensures
            r == self.server(),
    {
        &self.server_info
    }
}

/// `s` without its trailing white space, as `str::trim_end` gives it.
pub open spec fn trimmed_end(s: Seq<char>) -> Seq<char>
    decreases s.len(),
{
    if s.len() > 0 && is_white_space(s.last()) {
        trimmed_end(s.drop_last())
    } else {
        s
    }
}

/// What the client sends of a line typed at the terminal: the line without
/// its trailing white space (the line break among it).
pub fn outgoing_line(typed: &str) -> (r: String)
    ensures
        r@ == trimmed_end(typed@),
{
    let len = typed.unicode_len();
    let mut k: usize = len;
    assert(typed@.take(len as int) =~= typed@);
    while k > 0 && is_white_space_char(typed.get_char(k - 1))
        invariant
            k <= len,
            len == typed@.len(),
            trimmed_end(typed@) == trimmed_end(typed@.take(k as int)),
        decreases k,
    {
        let ghost t = typed@.take(k as int);
        assert(t.drop_last() =~= typed@.take(k - 1));
        assert(t.last() == typed@[k - 1]);
        k = k - 1;
    }
    let kept = typed.substring_char(0, k);
    assert(typed@.subrange(0, k as int) =~= typed@.take(k as int));
    proof {
        let t = typed@.take(k as int);
        if k > 0 {
            assert(t.last() == typed@[k - 1]);
        }
    }
    String::from_str(kept)
}

/// Whether an answer from the server ends the session: it is exactly
/// `exit!`.
pub fn ends_session(answer: &str) -> (r: bool)
    ensures
        r == (answer@ == "exit!"@),
{
    String::from_str(answer) == String::from_str("exit!")
}

} // verus!
