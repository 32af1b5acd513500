//! Server addresses: an IP in one of two forms and a port, and their
//! textual spellings.
use vstd::prelude::*;
use crate::text::{
    decimal,
    push_decimal,
    decimal_string,
    integer_value,
    is_digit,
    lemma_decimal_reads_back,
};

verus! {

/// The address of a chat server: four octets, or six for the long form.
#[derive(Clone, Copy, PartialEq, Eq, Structural, Debug)]
pub enum IP {
    V4(u8, u8, u8, u8),
    V6(u8, u8, u8, u8, u8, u8),
}

/// The octets of an address joined by dots, each spelled in decimal.
pub open spec fn dotted(parts: Seq<u8>) -> Seq<char>
    decreases parts.len(),
{
    if parts.len() == 0 {
        Seq::empty()
    } else if parts.len() == 1 {
        decimal(parts[0] as nat)
    } else {
        dotted(parts.drop_last()) + seq!['.'] + decimal(parts.last() as nat)
    }
}

/// The octets of an address, in order.
pub open spec fn octets(ip: IP) -> Seq<u8> {
    match ip {
        IP::V4(a, b, c, d) => seq![a, b, c, d],
        IP::V6(a, b, c, d, e, f) => seq![a, b, c, d, e, f],
    }
}

impl IP {
    /// The four octets, where this is a four-octet address.
    pub fn get_ipv4(&self) -> (r: Option<(u8, u8, u8, u8)>)
        ensures
            r == (match *self {
                IP::V4(a, b, c, d) => Some((a, b, c, d)),
                _ => None,
            }),
    {
        match self {
            IP::V4(n1, n2, n3, n4) => Some((*n1, *n2, *n3, *n4)),
            _ => None,
        }
    }

    /// The six octets, where this is a six-octet address.
    pub fn get_ipv6(&self) -> (r: Option<(u8, u8, u8, u8, u8, u8)>)
        ensures
            r == (match *self {
                IP::V6(a, b, c, d, e, f) => Some((a, b, c, d, e, f)),
                _ => None,
            }),
    {
        match self {
            IP::V6(n1, n2, n3, n4, n5, n6) => Some((*n1, *n2, *n3, *n4, *n5, *n6)),
            _ => None,
        }
    }
}

/// Where a server listens: its address and port.
pub struct ServerDetails {
    ip_adress: IP,
    port: u16,
}

impl ServerDetails {
    /// The address.
    pub closed spec fn address(&self) -> IP {
        self.ip_adress
    }

    /// The port.
    pub closed spec fn port_number(&self) -> u16 {
        self.port
    }

    pub fn new_ipv4(n1: u8, n2: u8, n3: u8, n4: u8, port: u16) -> (r: Self)
        ensures
            r.address() == IP::V4(n1, n2, n3, n4),
            r.port_number() == port,
    {
        Self { ip_adress: IP::V4(n1, n2, n3, n4), port: port }
    }

    pub fn new_ipv6(n1: u8, n2: u8, n3: u8, n4: u8, n5: u8, n6: u8, port: u16) -> (r: Self)
        ensures
            r.address() == IP::V6(n1, n2, n3, n4, n5, n6),
            r.port_number() == port,
    {
        Self { ip_adress: IP::V6(n1, n2, n3, n4, n5, n6), port: port }
    }

    /// The address, its octets in decimal joined by dots. There is always
    /// one.
    pub fn ip_to_string(&self) -> (r: Option<String>)
        ensures
            r is Some,
            r->0@ == dotted(octets(self.address())),
    {
        match self.ip_adress.get_ipv4() {
            Some((a, b, c, d)) => {
                let s = dotted_string(&vec![a, b, c, d]);
                Some(s)
            },
            None => match self.ip_adress.get_ipv6() {
                Some((a, b, c, d, e, f)) => {
                    let s = dotted_string(&vec![a, b, c, d, e, f]);
                    Some(s)
                },
                None => None,
            },
        }
    }

    /// The port in decimal. There is always one.
    pub fn port_to_string(&self) -> (r: Option<String>)
        ensures
            r is Some,
            r->0@ == decimal(self.port_number() as nat),
    {
        let s = decimal_string(self.port as u64);
        Some(s)
    }

    /// The `address:port` text that a socket connects to or binds.
    pub fn socket_address(&self) -> (r: String)
        ensures
            r@ == dotted(octets(self.address())) + seq![':'] + decimal(self.port_number() as nat),
    {
        let mut s = match self.ip_to_string() {
            Some(ip) => ip,
            None => String::new(),
        };
        crate::text::push_char(&mut s, ':');
        push_decimal(&mut s, self.port as u64);
        s
    }
}

/// Joins the octets with dots, each in decimal.
fn dotted_string(parts: &Vec<u8>) -> (r: String)
    ensures
        r@ == dotted(parts@),
{
    let mut s = String::new();
    let mut i: usize = 0;
    while i < parts.len()
        invariant
            0 <= i <= parts.len(),
            s@ == dotted(parts@.take(i as int)),
        decreases parts.len() - i,
    {
        if i > 0 {
            crate::text::push_char(&mut s, '.');
        }
        push_decimal(&mut s, parts[i] as u64);
        let ghost next = parts@.take(i + 1);
        assert(next.drop_last() =~= parts@.take(i as int));
        assert(next.last() == parts@[i as int]);
        i = i + 1;
    }
    assert(parts@.take(parts.len() as int) =~= parts@);
    s
}

/// A text cut at every dot: the pieces between the dots, in order (a text
/// without dots is one piece).
pub open spec fn split_at_dots(s: Seq<char>) -> Seq<Seq<char>>
    decreases s.len(),
{
    if s.len() == 0 {
        seq![Seq::empty()]
    } else {
        let r = split_at_dots(s.drop_last());
        if s.last() == '.' {
            r.push(Seq::empty())
        } else {
            r.update(r.len() - 1, r.last().push(s.last()))
        }
    }
}

proof fn lemma_split_at_dots_nonempty(s: Seq<char>)
    ensures
        split_at_dots(s).len() > 0,
    decreases s.len(),
{
    if s.len() > 0 {
        lemma_split_at_dots_nonempty(s.drop_last());
    }
}

/// Appending a text without dots extends the last piece.
proof fn lemma_split_append_plain(p: Seq<char>, q: Seq<char>)
    requires
        forall|i: int| 0 <= i < q.len() ==> #[trigger] q[i] != '.',
    ensures
        split_at_dots(p + q) == split_at_dots(p).update(
            split_at_dots(p).len() - 1,
            split_at_dots(p).last() + q,
        ),
    decreases q.len(),
{
    lemma_split_at_dots_nonempty(p);
    if q.len() == 0 {
        assert(p + q =~= p);
        assert(split_at_dots(p).last() + q =~= split_at_dots(p).last());
        assert(split_at_dots(p).update(split_at_dots(p).len() - 1, split_at_dots(p).last())
            =~= split_at_dots(p));
    } else {
        let q0 = q.drop_last();
        assert forall|i: int| 0 <= i < q0.len() implies #[trigger] q0[i] != '.' by {
            assert(q0[i] == q[i]);
        }
        lemma_split_append_plain(p, q0);
        assert((p + q).drop_last() =~= p + q0);
        assert((p + q).last() == q.last());
        assert(q[q.len() - 1] != '.');
        assert((split_at_dots(p).last() + q0).push(q.last()) =~= split_at_dots(p).last() + q);
        let r = split_at_dots(p);
        let r0 = r.update(r.len() - 1, r.last() + q0);
        assert(r0.last() == r.last() + q0);
        assert(r0.update(r0.len() - 1, r0.last().push(q.last())) =~= r.update(
            r.len() - 1,
            r.last() + q,
        ));
    }
}

/// Cutting an address text at its dots gives the decimal spelling of each
/// octet, in order.
proof fn lemma_split_dotted(parts: Seq<u8>)
    requires
        parts.len() > 0,
    ensures
        split_at_dots(dotted(parts)) == parts.map_values(|b: u8| decimal(b as nat)),
    decreases parts.len(),
{
    let last = parts.last();
    lemma_decimal_reads_back(last as nat);
    let d = decimal(last as nat);
    assert forall|i: int| 0 <= i < d.len() implies #[trigger] d[i] != '.' by {
        assert(is_digit(d[i]));
    }
    if parts.len() == 1 {
        lemma_split_append_plain(Seq::empty(), d);
        assert(Seq::<char>::empty() + d =~= d);
        assert(split_at_dots(Seq::<char>::empty()) == seq![Seq::<char>::empty()]);
        assert(Seq::<char>::empty() + d =~= d);
        assert(seq![Seq::<char>::empty()].update(0, Seq::<char>::empty() + d) =~= parts.map_values(
            |b: u8| decimal(b as nat),
        ));
    } else {
        let front = parts.drop_last();
        lemma_split_dotted(front);
        let head = dotted(front) + seq!['.'];
        assert(head.drop_last() =~= dotted(front));
        assert(head.last() == '.');
        lemma_split_append_plain(head, d);
        let r = split_at_dots(head);
        assert(r == front.map_values(|b: u8| decimal(b as nat)).push(Seq::empty()));
        assert(Seq::<char>::empty() + d =~= d);
        assert(r.update(r.len() - 1, r.last() + d) =~= parts.map_values(|b: u8| decimal(b as nat)));
    }
}

/// The address text reads back: cut at its dots, it has one piece per
/// octet, and each piece spells that octet as an integer.
pub proof fn lemma_address_text_reads_back(ip: IP)
    ensures
        split_at_dots(dotted(octets(ip))).len() == octets(ip).len(),
        forall|i: int|
            0 <= i < octets(ip).len() ==> integer_value(
                #[trigger] split_at_dots(dotted(octets(ip)))[i],
            ) == Some(octets(ip)[i] as int),
{
    let parts = octets(ip);
    lemma_split_dotted(parts);
    assert forall|i: int| 0 <= i < parts.len() implies integer_value(
        #[trigger] split_at_dots(dotted(parts))[i],
    ) == Some(parts[i] as int) by {
        let piece = split_at_dots(dotted(parts))[i];
        assert(piece == decimal(parts[i] as nat));
        lemma_decimal_reads_back(parts[i] as nat);
        assert(is_digit(piece[0]));
    }
}

/// Different addresses have different texts.
pub proof fn lemma_address_text_distinct(a: IP, b: IP)
    requires
        dotted(octets(a)) == dotted(octets(b)),
    ensures
        a == b,
{
    lemma_address_text_reads_back(a);
    lemma_address_text_reads_back(b);
    let n = octets(a).len();
    assert(octets(b).len() == n);
    assert forall|i: int| 0 <= i < n implies octets(a)[i] == octets(b)[i] by {
        assert(integer_value(split_at_dots(dotted(octets(a)))[i]) == Some(octets(a)[i] as int));
        assert(integer_value(split_at_dots(dotted(octets(b)))[i]) == Some(octets(b)[i] as int));
    }
    match a {
        IP::V4(..) => {
            assert(octets(a)[0] == octets(b)[0]);
            assert(octets(a)[3] == octets(b)[3]);
        },
        IP::V6(..) => {
            assert(octets(a)[0] == octets(b)[0]);
            assert(octets(a)[5] == octets(b)[5]);
        },
    }
}

} // verus!
