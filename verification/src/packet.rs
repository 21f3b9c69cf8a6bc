//! Raw IPv4 packets as byte buffers, and the addresses read out of them.

use std::collections::VecDeque;
use vstd::prelude::*;

verus! {

/// An IPv4 address held as four plain octets, so that address logic can be
/// reasoned about without an opaque outside type.
#[derive(Clone, Copy, Debug, PartialEq, Eq, Structural, Hash)]
pub struct Ipv4Address {
    pub o0: u8,
    pub o1: u8,
    pub o2: u8,
    pub o3: u8,
}

impl Ipv4Address {
    pub fn new(o0: u8, o1: u8, o2: u8, o3: u8) -> (r: Ipv4Address)
        ensures
            r.o0 == o0 && r.o1 == o1 && r.o2 == o2 && r.o3 == o3,
    {
        Ipv4Address { o0, o1, o2, o3 }
    }

    /// The address as a single integer, most significant octet first.
    pub open spec fn spec_to_u32(self) -> u32 {
        (self.o0 as u32 * 0x1000000 + self.o1 as u32 * 0x10000 + self.o2 as u32 * 0x100
            + self.o3 as u32) as u32
    }

    pub fn to_u32(self) -> (r: u32)
        ensures
            r == self.spec_to_u32(),
    {
        self.o0 as u32 * 0x1000000 + self.o1 as u32 * 0x10000 + self.o2 as u32 * 0x100
            + self.o3 as u32
    }
}

/// One IP packet: a plain byte buffer, read from and written to the TUN
/// device by the surrounding application.
#[derive(Debug, Clone)]
pub struct PacketIP {
    data: Vec<u8>,
}

impl View for PacketIP {
    type V = Seq<u8>;

    closed spec fn view(&self) -> Seq<u8> {
        self.data@
    }
}

impl PacketIP {
    /// A zero-filled packet buffer of the given size.
    pub fn new(size: usize) -> (r: PacketIP)
        ensures
            r@.len() == size,
            forall|i: int| 0 <= i < size ==> r@[i] == 0u8,
    {
        let data: Vec<u8> = vec![0u8; size];
        PacketIP { data }
    }

    /// Wrap existing bytes without copying.
    pub fn from_bytes(data: Vec<u8>) -> (r: PacketIP)
        ensures
            r@ == data@,
    {
        PacketIP { data }
    }

    /// The source address, taken from bytes 12..16 of the IPv4 header;
    /// the all-zero address when the buffer is too short to hold one.
    pub fn source_ip(&self) -> (r: Ipv4Address)
        ensures
            self@.len() >= 16 ==> r == (Ipv4Address {
                o0: self@[12],
                o1: self@[13],
                o2: self@[14],
                o3: self@[15],
            }),
            self@.len() < 16 ==> r == (Ipv4Address { o0: 0u8, o1: 0u8, o2: 0u8, o3: 0u8 }),
    {
        if self.data.len() >= 16 {
            Ipv4Address {
                o0: self.data[12],
                o1: self.data[13],
                o2: self.data[14],
                o3: self.data[15],
            }
        } else {
            Ipv4Address { o0: 0, o1: 0, o2: 0, o3: 0 }
        }
    }

    /// The destination address, taken from bytes 16..20 of the IPv4 header;
    /// the all-zero address when the buffer is too short to hold one.
    pub fn destination_ip(&self) -> (r: Ipv4Address)
        ensures
            self@.len() >= 20 ==> r == (Ipv4Address {
                o0: self@[16],
                o1: self@[17],
                o2: self@[18],
                o3: self@[19],
            }),
            self@.len() < 20 ==> r == (Ipv4Address { o0: 0u8, o1: 0u8, o2: 0u8, o3: 0u8 }),
    {
        if self.data.len() >= 20 {
            Ipv4Address {
                o0: self.data[16],
                o1: self.data[17],
                o2: self.data[18],
                o3: self.data[19],
            }
        } else {
            Ipv4Address { o0: 0, o1: 0, o2: 0, o3: 0 }
        }
    }

    pub fn as_bytes(&self) -> (r: &[u8])
        ensures
            r@ == self@,
    {
        self.data.as_slice()
    }

    pub fn as_bytes_mut(&mut self) -> (r: &mut [u8])
        ensures
            r@ == old(self)@,
            final(self)@ == final(r)@,
    {
        self.data.as_mut_slice()
    }

    pub fn len(&self) -> (r: usize)
        ensures
            r == self@.len(),
    {
        self.data.len()
    }

    pub fn is_empty(&self) -> (r: bool)
        ensures
            r == (self@.len() == 0),
    {
        self.data.is_empty()
    }

    /// Grow with zero bytes, or shrink, to exactly `new_len` bytes.
    pub fn resize(&mut self, new_len: usize)
        ensures
            final(self)@.len() == new_len,
            final(self)@.take(vstd::math::min(new_len as int, old(self)@.len() as int))
                == old(self)@.take(vstd::math::min(new_len as int, old(self)@.len() as int)),
            forall|i: int| old(self)@.len() <= i < new_len ==> final(self)@[i] == 0u8,
    {
        self.data.resize(new_len, 0u8);
        proof {
            if new_len <= old(self)@.len() {
                assert(final(self)@.take(new_len as int) =~= old(self)@.subrange(
                    0,
                    new_len as int,
                ));
            } else {
                assert(final(self)@.take(old(self)@.len() as int) =~= old(self)@.subrange(
                    0,
                    old(self)@.len() as int,
                ));
                assert forall|i: int| old(self)@.len() <= i < new_len implies final(self)@[i]
                    == 0u8 by {
                    assert(vstd::prelude::cloned(0u8, final(self)@[i]));
                }
            }
        }
    }

    /// Keep only the first `len` bytes; a `len` past the end leaves the
    /// buffer unchanged.
    pub fn truncate(&mut self, len: usize)
        ensures
            len <= old(self)@.len() ==> final(self)@ == old(self)@.take(len as int),
            len > old(self)@.len() ==> final(self)@ == old(self)@,
    {
        self.data.truncate(len);
    }

    /// Replace the whole contents with a copy of `data`.
    pub fn set_data(&mut self, data: &[u8])
        ensures
            final(self)@ == data@,
    {
        self.data.clear();
        self.data.extend_from_slice(data);
        proof {
            assert(final(self)@ =~= data@);
        }
    }
}

/// The character for one decimal digit.
pub open spec fn digit_char(n: u8) -> char
    recommends
        n < 10,
{
    (('0' as u8) + n) as char
}

/// The decimal characters of one octet, without leading zeros.
pub open spec fn dec_chars(n: u8) -> Seq<char> {
    if n < 10 {
        seq![digit_char(n)]
    } else if n < 100 {
        seq![digit_char(n / 10), digit_char(n % 10)]
    } else {
        seq![digit_char(n / 100), digit_char((n / 10) % 10), digit_char(n % 10)]
    }
}

/// The dotted-quad characters of an address.
pub open spec fn ipv4_chars(a: Ipv4Address) -> Seq<char> {
    dec_chars(a.o0) + seq!['.'] + dec_chars(a.o1) + seq!['.'] + dec_chars(a.o2) + seq!['.']
        + dec_chars(a.o3)
}

/// One decimal digit as a string slice.
pub(crate) fn digit_str(d: u8) -> (r: &'static str)
    requires
        d < 10,
    ensures
        r@ == seq![digit_char(d)],
{
    proof {
        reveal_strlit("0");
        reveal_strlit("1");
        reveal_strlit("2");
        reveal_strlit("3");
        reveal_strlit("4");
        reveal_strlit("5");
        reveal_strlit("6");
        reveal_strlit("7");
        reveal_strlit("8");
        reveal_strlit("9");
    }
    if d == 0 {
        proof {
            assert("0"@ =~= seq![digit_char(0)]);
        }
        "0"
    } else if d == 1 {
        proof {
            assert("1"@ =~= seq![digit_char(1)]);
        }
        "1"
    } else if d == 2 {
        proof {
            assert("2"@ =~= seq![digit_char(2)]);
        }
        "2"
    } else if d == 3 {
        proof {
            assert("3"@ =~= seq![digit_char(3)]);
        }
        "3"
    } else if d == 4 {
        proof {
            assert("4"@ =~= seq![digit_char(4)]);
        }
        "4"
    } else if d == 5 {
        proof {
            assert("5"@ =~= seq![digit_char(5)]);
        }
        "5"
    } else if d == 6 {
        proof {
            assert("6"@ =~= seq![digit_char(6)]);
        }
        "6"
    } else if d == 7 {
        proof {
            assert("7"@ =~= seq![digit_char(7)]);
        }
        "7"
    } else if d == 8 {
        proof {
            assert("8"@ =~= seq![digit_char(8)]);
        }
        "8"
    } else {
        proof {
            assert("9"@ =~= seq![digit_char(9)]);
        }
        "9"
    }
}

/// Append one octet's decimal characters to a string.
fn push_dec(s: &mut String, n: u8)
    ensures
        final(s)@ == old(s)@ + dec_chars(n),
{
    if n < 10 {
        s.append(digit_str(n));
        proof {
            assert(s@ =~= old(s)@ + dec_chars(n));
        }
    } else if n < 100 {
        s.append(digit_str(n / 10));
        s.append(digit_str(n % 10));
        proof {
            assert(s@ =~= old(s)@ + dec_chars(n));
        }
    } else {
        s.append(digit_str(n / 100));
        s.append(digit_str((n / 10) % 10));
        s.append(digit_str(n % 10));
        proof {
            assert(s@ =~= old(s)@ + dec_chars(n));
        }
    }
}

impl Ipv4Address {
    /// The dotted-quad text of this address.
    pub fn address_string(&self) -> (r: String)
        ensures
            r@ == ipv4_chars(*self),
    {
        proof {
            reveal_strlit(".");
        }
        let mut s = String::new();
        push_dec(&mut s, self.o0);
        s.append(".");
        push_dec(&mut s, self.o1);
        s.append(".");
        push_dec(&mut s, self.o2);
        s.append(".");
        push_dec(&mut s, self.o3);
        proof {
            assert(".".view() =~= seq!['.']);
            assert(s@ =~= ipv4_chars(*self));
        }
        s
    }
}

/// A first-in-first-out queue of raw packets.
#[derive(Debug)]
pub struct PacketQueue {
    queue: VecDeque<Vec<u8>>,
}

impl View for PacketQueue {
    type V = Seq<Seq<u8>>;

    closed spec fn view(&self) -> Seq<Seq<u8>> {
        self.queue@.map_values(|v: Vec<u8>| v@)
    }
}

impl PacketQueue {
    pub fn new() -> (r: PacketQueue)
        ensures
            r@ == Seq::<Seq<u8>>::empty(),
    {
        let r = PacketQueue { queue: VecDeque::new() };
        proof {
            assert(r@ =~= Seq::<Seq<u8>>::empty());
        }
        r
    }

    /// Add one packet at the tail.
    pub fn enqueue(&mut self, item: Vec<u8>)
        ensures
            final(self)@ == old(self)@.push(item@),
    {
        self.queue.push_back(item);
        proof {
            assert(final(self)@ =~= old(self)@.push(item@));
        }
    }

    /// Take the packet at the head, oldest first.
    pub fn dequeue(&mut self) -> (r: Option<Vec<u8>>)
        ensures
            old(self)@.len() == 0 ==> r is None && final(self)@ == old(self)@,
            old(self)@.len() > 0 ==> (r matches Some(v) && v@ == old(self)@[0] && final(self)@
                == old(self)@.skip(1)),
    {
        let r = self.queue.pop_front();
        proof {
            if old(self)@.len() > 0 {
                assert(final(self)@ =~= old(self)@.skip(1));
            }
        }
        r
    }

    pub fn len(&self) -> (r: usize)
        ensures
            r == self@.len(),
    {
        self.queue.len()
    }

    pub fn is_empty(&self) -> (r: bool)
        ensures
            r == (self@.len() == 0),
    {
        self.queue.len() == 0
    }
}

} // verus!
