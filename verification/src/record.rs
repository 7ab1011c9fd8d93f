//! Questions and resource records: the tagged record-type code, the
//! question entry, and the six record variants with their type-specific
//! payload shapes.  Addresses are held as plain octets and 16-bit groups,
//! exactly as they stand on the wire.
use vstd::prelude::*;

use crate::BUF_SIZE;
use crate::DnsError;
use crate::buffer::PacketBuffer;
use crate::name::labels_ok;
use crate::name::lemma_name_wire_len;
use crate::name::name_wire;
use crate::name::parse_name;
use crate::splice;
use crate::lemma_splice_concat;
use crate::lemma_splice_patch;
use crate::lemma_update_is_splice;
use crate::unchanged_outside;
use crate::u16_bytes;
use crate::u16_of;
use crate::u32_bytes;
use crate::u32_of;
use vstd::string::StringSliceAdditionalSpecFns;
use vstd::utf8::encode_utf8;

verus! {

/// The record-type code space: the five modeled types and a catch-all
/// carrying any other raw 16-bit code.
#[derive(Copy, Clone, Debug, Eq, Hash, PartialEq, Structural)]
pub enum QueryType {
    UNKNOWN(u16),
    A,
    NS,
    CNAME,
    MX,
    AAAA,
}

/// The wire code of a record type.
pub open spec fn qtype_num(q: QueryType) -> u16 {
    match q {
        QueryType::UNKNOWN(x) => x,
        QueryType::A => 1,
        QueryType::NS => 2,
        QueryType::CNAME => 5,
        QueryType::MX => 15,
        QueryType::AAAA => 28,
    }
}

/// The record type a wire code decodes to.
pub open spec fn qtype_of(num: u16) -> QueryType {
    if num == 1 {
        QueryType::A
    } else if num == 2 {
        QueryType::NS
    } else if num == 5 {
        QueryType::CNAME
    } else if num == 15 {
        QueryType::MX
    } else if num == 28 {
        QueryType::AAAA
    } else {
        QueryType::UNKNOWN(num)
    }
}

impl QueryType {
    /// The wire code of this record type.
    pub fn to_u16(&self) -> (r: u16)
        ensures
            r == qtype_num(*self),
    {
        match *self {
            QueryType::UNKNOWN(x) => x,
            QueryType::A => 1,
            QueryType::NS => 2,
            QueryType::CNAME => 5,
            QueryType::MX => 15,
            QueryType::AAAA => 28,
        }
    }

    /// Decode a wire code into its record type.
    pub fn from_u16(num: u16) -> (r: QueryType)
        ensures
            r == qtype_of(num),
    {
        match num {
            1 => QueryType::A,
            2 => QueryType::NS,
            5 => QueryType::CNAME,
            15 => QueryType::MX,
            28 => QueryType::AAAA,
            _ => QueryType::UNKNOWN(num),
        }
    }
}

/// Encoding a record type and decoding the code gives the type back, for
/// the five named types and for any unknown code that is not one of their
/// five wire codes.
pub proof fn lemma_query_type_round_trip(q: QueryType)
    requires
        q matches QueryType::UNKNOWN(x) ==> (x != 1 && x != 2 && x != 5 && x != 15 && x != 28),
    ensures
        qtype_of(qtype_num(q)) == q,
{
}

/// An IPv4 address as its four wire octets.
#[derive(Clone, Copy, Debug, PartialEq, Eq, Structural)]
pub struct Ipv4Address {
    pub o0: u8,
    pub o1: u8,
    pub o2: u8,
    pub o3: u8,
}

/// An IPv6 address as its eight 16-bit groups.
#[derive(Clone, Copy, Debug, PartialEq, Eq, Structural)]
pub struct Ipv6Address {
    pub s0: u16,
    pub s1: u16,
    pub s2: u16,
    pub s3: u16,
    pub s4: u16,
    pub s5: u16,
    pub s6: u16,
    pub s7: u16,
}

/// One question entry: a domain name and a record type.  The class field
/// on the wire is fixed to one and not modeled.
#[derive(Clone, Debug, Eq, PartialEq)]
pub struct DnsQuestion {
    pub name: String,
    pub q_type: QueryType,
}

/// The mathematical value of a question: its name characters and type.
pub struct QuestionModel {
    pub name: Seq<char>,
    pub q_type: QueryType,
}

impl View for DnsQuestion {
    type V = QuestionModel;

    open spec fn view(&self) -> QuestionModel {
        QuestionModel { name: self.name@, q_type: self.q_type }
    }
}

/// What decoding a question at offset `pos` yields: its model and the
/// offset just past it.
pub open spec fn parse_question(buf: Seq<u8>, pos: nat) -> Result<(QuestionModel, nat), DnsError> {
    match parse_name(buf, pos, 0) {
        Ok(p) => {
            let p1 = p.1;
            if p1 + 4 <= BUF_SIZE {
                Ok(
                    (
                        QuestionModel {
                            name: p.0,
                            q_type: qtype_of(u16_of(buf[p1 as int], buf[p1 as int + 1])),
                        },
                        (p1 + 4) as nat,
                    ),
                )
            } else {
                Err(DnsError::OutOfBounds)
            }
        },
        Err(e) => Err(e),
    }
}

/// The wire bytes of a question: the name, the type code, and the class
/// (always one).
pub open spec fn question_wire(q: QuestionModel) -> Seq<u8> {
    name_wire(encode_utf8(q.name)) + u16_bytes(qtype_num(q.q_type)) + u16_bytes(1)
}

impl DnsQuestion {
    /// A question over the given name and type.
    pub fn new(name: String, q_type: QueryType) -> (r: DnsQuestion)
        ensures
            r.name@ == name@,
            r.q_type == q_type,
    {
        DnsQuestion { name, q_type }
    }

    /// Decode the question under the buffer's cursor: its name text is
    /// appended to this question's name, its type replaces this
    /// question's type, and the class is read and discarded.
    pub fn read(&mut self, buf: &mut PacketBuffer) -> (r: Result<(), DnsError>)
        ensures
            final(buf).buf@ == old(buf).buf@,
            final(buf).pos >= old(buf).pos,
            match r {
                Ok(()) => {
                    let p = parse_question(old(buf).buf@, old(buf).pos as nat);
                    &&& p is Ok
                    &&& final(buf).pos == p->Ok_0.1
                    &&& final(self).name@ == old(self).name@ + p->Ok_0.0.name
                    &&& final(self).q_type == p->Ok_0.0.q_type
                },
                Err(e) => parse_question(old(buf).buf@, old(buf).pos as nat) == Err::<
                    (QuestionModel, nat),
                    DnsError,
                >(e),
            },
    {
        buf.read_qname(&mut self.name)?;
        self.q_type = QueryType::from_u16(buf.read_u16()?);
        let _ = buf.read_u16()?;
        Ok(())
    }

    /// Encode this question at the buffer's cursor: the name in label
    /// form, the type code, and class one.
    pub fn write(&self, buf: &mut PacketBuffer) -> (r: Result<(), DnsError>)
        ensures
            match r {
                Ok(()) => {
                    let w = question_wire(self@);
                    &&& labels_ok(encode_utf8(self.name@))
                    &&& old(buf).pos + w.len() <= BUF_SIZE
                    &&& final(buf).buf@ == splice(old(buf).buf@, old(buf).pos as int, w)
                    &&& final(buf).pos == old(buf).pos + w.len()
                },
                Err(e) => {
                    let w = question_wire(self@);
                    &&& !(labels_ok(encode_utf8(self.name@)) && old(buf).pos + w.len() <= BUF_SIZE)
                    &&& (e == DnsError::LabelTooLong ==> !labels_ok(encode_utf8(self.name@)))
                    &&& (e == DnsError::OutOfBounds ==> old(buf).pos + w.len() > BUF_SIZE)
                    &&& (e == DnsError::LabelTooLong || e == DnsError::OutOfBounds)
                    &&& final(buf).pos >= old(buf).pos
                    &&& unchanged_outside(
                        old(buf).buf@,
                        final(buf).buf@,
                        old(buf).pos as int,
                        final(buf).pos as int,
                    )
                },
            },
    {
        let ghost buf0 = buf.buf@;
        let ghost pos0 = buf.pos as int;
        proof {
            lemma_name_wire_len(encode_utf8(self.name@));
        }
        buf.write_qname(self.name.as_str())?;
        let ghost w1 = name_wire(encode_utf8(self.name@));

        let q_type_u16 = self.q_type.to_u16();
        buf.write_u16(q_type_u16)?;
        proof {
            lemma_splice_concat(buf0, pos0, w1, u16_bytes(qtype_num(self.q_type)));
        }
        let ghost w2 = w1 + u16_bytes(qtype_num(self.q_type));
        buf.write_u16(1)?;
        proof {
            lemma_splice_concat(buf0, pos0, w2, u16_bytes(1));
            assert(w2 + u16_bytes(1) =~= question_wire(self@));
        }
        Ok(())
    }
}

/// A resource record, keyed by its type: the five modeled payload shapes
/// and the catch-all for every other type code, which keeps only the raw
/// code and the declared payload length.
#[derive(Clone, Debug, Eq, PartialEq)]
pub enum DnsRecord {
    UNKNOWN { domain: String, q_type: u16, len: u16, ttl: u32 },
    A { domain: String, addr_v4: Ipv4Address, ttl: u32 },
    NS { domain: String, host: String, ttl: u32 },
    CNAME { domain: String, host: String, ttl: u32 },
    MX { domain: String, priority: u16, host: String, ttl: u32 },
    AAAA { domain: String, addr: Ipv6Address, ttl: u32 },
}

/// The mathematical value of a resource record: names as their character
/// sequences, every other field as it is.
#[verifier::ext_equal]
pub enum RecordModel {
    Unknown { domain: Seq<char>, q_type: u16, len: u16, ttl: u32 },
    A { domain: Seq<char>, addr_v4: Ipv4Address, ttl: u32 },
    Ns { domain: Seq<char>, host: Seq<char>, ttl: u32 },
    Cname { domain: Seq<char>, host: Seq<char>, ttl: u32 },
    Mx { domain: Seq<char>, priority: u16, host: Seq<char>, ttl: u32 },
    Aaaa { domain: Seq<char>, addr: Ipv6Address, ttl: u32 },
}

impl View for DnsRecord {
    type V = RecordModel;

    open spec fn view(&self) -> RecordModel {
        match *self {
            DnsRecord::UNKNOWN { ref domain, q_type, len, ttl } => RecordModel::Unknown {
                domain: domain@,
                q_type,
                len,
                ttl,
            },
            DnsRecord::A { ref domain, addr_v4, ttl } => RecordModel::A {
                domain: domain@,
                addr_v4,
                ttl,
            },
            DnsRecord::NS { ref domain, ref host, ttl } => RecordModel::Ns {
                domain: domain@,
                host: host@,
                ttl,
            },
            DnsRecord::CNAME { ref domain, ref host, ttl } => RecordModel::Cname {
                domain: domain@,
                host: host@,
                ttl,
            },
            DnsRecord::MX { ref domain, priority, ref host, ttl } => RecordModel::Mx {
                domain: domain@,
                priority,
                host: host@,
                ttl,
            },
            DnsRecord::AAAA { ref domain, addr, ttl } => RecordModel::Aaaa {
                domain: domain@,
                addr,
                ttl,
            },
        }
    }
}

/// What decoding a resource record at offset `pos` yields: its model and
/// the offset just past it.  After the name come the type code, the class
/// (discarded), the time to live and the declared payload length; the
/// payload is then read by the shape the type code picks, and a record of
/// an unmodeled type is skipped over by its declared length.
pub open spec fn parse_record(buf: Seq<u8>, pos: nat) -> Result<(RecordModel, nat), DnsError> {
    match parse_name(buf, pos, 0) {
        Ok(p) => {
            let domain = p.0;
            let p1 = p.1 as int;
            if p1 + 10 > BUF_SIZE {
                Err(DnsError::OutOfBounds)
            } else {
                let q_type_num = u16_of(buf[p1], buf[p1 + 1]);
                let ttl = u32_of(buf[p1 + 4], buf[p1 + 5], buf[p1 + 6], buf[p1 + 7]);
                let len = u16_of(buf[p1 + 8], buf[p1 + 9]);
                let p2 = p1 + 10;
                match qtype_of(q_type_num) {
                    QueryType::A => if p2 + 4 > BUF_SIZE {
                        Err(DnsError::OutOfBounds)
                    } else {
                        let addr_v4 = Ipv4Address {
                            o0: buf[p2],
                            o1: buf[p2 + 1],
                            o2: buf[p2 + 2],
                            o3: buf[p2 + 3],
                        };
                        Ok((RecordModel::A { domain, addr_v4, ttl }, (p2 + 4) as nat))
                    },
                    QueryType::AAAA => if p2 + 16 > BUF_SIZE {
                        Err(DnsError::OutOfBounds)
                    } else {
                        let addr = Ipv6Address {
                            s0: u16_of(buf[p2], buf[p2 + 1]),
                            s1: u16_of(buf[p2 + 2], buf[p2 + 3]),
                            s2: u16_of(buf[p2 + 4], buf[p2 + 5]),
                            s3: u16_of(buf[p2 + 6], buf[p2 + 7]),
                            s4: u16_of(buf[p2 + 8], buf[p2 + 9]),
                            s5: u16_of(buf[p2 + 10], buf[p2 + 11]),
                            s6: u16_of(buf[p2 + 12], buf[p2 + 13]),
                            s7: u16_of(buf[p2 + 14], buf[p2 + 15]),
                        };
                        Ok((RecordModel::Aaaa { domain, addr, ttl }, (p2 + 16) as nat))
                    },
                    QueryType::NS => match parse_name(buf, p2 as nat, 0) {
                        Ok(ph) => Ok((RecordModel::Ns { domain, host: ph.0, ttl }, ph.1)),
                        Err(e) => Err(e),
                    },
                    QueryType::CNAME => match parse_name(buf, p2 as nat, 0) {
                        Ok(ph) => Ok((RecordModel::Cname { domain, host: ph.0, ttl }, ph.1)),
                        Err(e) => Err(e),
                    },
                    QueryType::MX => if p2 + 2 > BUF_SIZE {
                        Err(DnsError::OutOfBounds)
                    } else {
                        let priority = u16_of(buf[p2], buf[p2 + 1]);
                        match parse_name(buf, (p2 + 2) as nat, 0) {
                            Ok(ph) => Ok(
                                (RecordModel::Mx { domain, priority, host: ph.0, ttl }, ph.1),
                            ),
                            Err(e) => Err(e),
                        }
                    },
                    QueryType::UNKNOWN(_) => Ok(
                        (
                            RecordModel::Unknown { domain, q_type: q_type_num, len, ttl },
                            (p2 + len) as nat,
                        ),
                    ),
                }
            }
        },
        Err(e) => Err(e),
    }
}

/// Every domain name a record would put on the wire encodes cleanly: all
/// its labels are at most 63 bytes.  An unrecognized record writes
/// nothing, so nothing can fail.
pub open spec fn record_ok(m: RecordModel) -> bool {
    match m {
        RecordModel::Unknown { .. } => true,
        RecordModel::A { domain, .. } => labels_ok(encode_utf8(domain)),
        RecordModel::Ns { domain, host, .. } => labels_ok(encode_utf8(domain)) && labels_ok(
            encode_utf8(host),
        ),
        RecordModel::Cname { domain, host, .. } => labels_ok(encode_utf8(domain)) && labels_ok(
            encode_utf8(host),
        ),
        RecordModel::Mx { domain, host, .. } => labels_ok(encode_utf8(domain)) && labels_ok(
            encode_utf8(host),
        ),
        RecordModel::Aaaa { domain, .. } => labels_ok(encode_utf8(domain)),
    }
}

/// The wire bytes of a record: name, type code, class one, time to live,
/// the payload length, and the payload.  For the name-carrying payloads
/// the length field holds exactly what the nested name occupies, as the
/// encoder's back-patching leaves it.  An unrecognized record encodes to
/// nothing at all.
pub open spec fn record_wire(m: RecordModel) -> Seq<u8> {
    match m {
        RecordModel::Unknown { .. } => Seq::empty(),
        RecordModel::A { domain, addr_v4, ttl } => name_wire(encode_utf8(domain)) + u16_bytes(1)
            + u16_bytes(1) + u32_bytes(ttl) + u16_bytes(4) + seq![
            addr_v4.o0,
            addr_v4.o1,
            addr_v4.o2,
            addr_v4.o3,
        ],
        RecordModel::Ns { domain, host, ttl } => name_wire(encode_utf8(domain)) + u16_bytes(2)
            + u16_bytes(1) + u32_bytes(ttl) + u16_bytes((encode_utf8(host).len() + 2) as u16)
            + name_wire(encode_utf8(host)),
        RecordModel::Cname { domain, host, ttl } => name_wire(encode_utf8(domain)) + u16_bytes(5)
            + u16_bytes(1) + u32_bytes(ttl) + u16_bytes((encode_utf8(host).len() + 2) as u16)
            + name_wire(encode_utf8(host)),
        RecordModel::Mx { domain, priority, host, ttl } => name_wire(encode_utf8(domain))
            + u16_bytes(15) + u16_bytes(1) + u32_bytes(ttl) + u16_bytes(
            (encode_utf8(host).len() + 4) as u16,
        ) + u16_bytes(priority) + name_wire(encode_utf8(host)),
        RecordModel::Aaaa { domain, addr, ttl } => name_wire(encode_utf8(domain)) + u16_bytes(28)
            + u16_bytes(1) + u32_bytes(ttl) + u16_bytes(16) + u16_bytes(addr.s0) + u16_bytes(
            addr.s1,
        ) + u16_bytes(addr.s2) + u16_bytes(addr.s3) + u16_bytes(addr.s4) + u16_bytes(addr.s5)
            + u16_bytes(addr.s6) + u16_bytes(addr.s7),
    }
}

/// The four big-endian bytes composing a 32-bit value come back out of it
/// one by one.
proof fn lemma_u32_unpack(b0: u8, b1: u8, b2: u8, b3: u8)
    ensures
        u32_of(b0, b1, b2, b3) / 0x1000000 == b0,
        (u32_of(b0, b1, b2, b3) / 0x10000) % 256 == b1,
        (u32_of(b0, b1, b2, b3) / 256) % 256 == b2,
        u32_of(b0, b1, b2, b3) % 256 == b3,
        u32_of(b0, b1, b2, b3) / 0x10000 == u16_of(b0, b1),
        u32_of(b0, b1, b2, b3) % 0x10000 == u16_of(b2, b3),
{
}

impl DnsRecord {
    /// Decode the resource record under the buffer's cursor, leaving the
    /// cursor just past it.  The payload of an unmodeled type is skipped
    /// by its declared length, not retained.
    pub fn read(buf: &mut PacketBuffer) -> (r: Result<DnsRecord, DnsError>)
        ensures
            final(buf).buf@ == old(buf).buf@,
            final(buf).pos >= old(buf).pos,
            match r {
                Ok(rec) => {
                    let p = parse_record(old(buf).buf@, old(buf).pos as nat);
                    &&& p is Ok
                    &&& rec@ == p->Ok_0.0
                    &&& final(buf).pos == p->Ok_0.1
                },
                Err(e) => parse_record(old(buf).buf@, old(buf).pos as nat) == Err::<
                    (RecordModel, nat),
                    DnsError,
                >(e),
            },
    {
        let mut domain = String::new();
        buf.read_qname(&mut domain)?;

        let q_type_u16 = buf.read_u16()?;
        let q_type = QueryType::from_u16(q_type_u16);
        let _ = buf.read_u16()?;
        let ttl = buf.read_u32()?;
        let len = buf.read_u16()?;

        match q_type {
            QueryType::A => {
                let raw_addr_v4 = buf.read_u32()?;
                proof {
                    let p1 = parse_name(old(buf).buf@, old(buf).pos as nat, 0)->Ok_0.1 as int;
                    lemma_u32_unpack(
                        old(buf).buf@[p1 + 10],
                        old(buf).buf@[p1 + 11],
                        old(buf).buf@[p1 + 12],
                        old(buf).buf@[p1 + 13],
                    );
                }
                let addr_v4 = Ipv4Address {
                    o0: (raw_addr_v4 / 0x1000000) as u8,
                    o1: ((raw_addr_v4 / 0x10000) % 256) as u8,
                    o2: ((raw_addr_v4 / 256) % 256) as u8,
                    o3: (raw_addr_v4 % 256) as u8,
                };
                Ok(DnsRecord::A { domain, addr_v4, ttl })
            },
            QueryType::AAAA => {
                let raw_addr_1 = buf.read_u32()?;
                let raw_addr_2 = buf.read_u32()?;
                let raw_addr_3 = buf.read_u32()?;
                let raw_addr_4 = buf.read_u32()?;
                proof {
                    let b = old(buf).buf@;
                    let p2 = parse_name(b, old(buf).pos as nat, 0)->Ok_0.1 as int + 10;
                    lemma_u32_unpack(b[p2], b[p2 + 1], b[p2 + 2], b[p2 + 3]);
                    lemma_u32_unpack(b[p2 + 4], b[p2 + 5], b[p2 + 6], b[p2 + 7]);
                    lemma_u32_unpack(b[p2 + 8], b[p2 + 9], b[p2 + 10], b[p2 + 11]);
                    lemma_u32_unpack(b[p2 + 12], b[p2 + 13], b[p2 + 14], b[p2 + 15]);
                }
                let addr = Ipv6Address {
                    s0: (raw_addr_1 / 0x10000) as u16,
                    s1: (raw_addr_1 % 0x10000) as u16,
                    s2: (raw_addr_2 / 0x10000) as u16,
                    s3: (raw_addr_2 % 0x10000) as u16,
                    s4: (raw_addr_3 / 0x10000) as u16,
                    s5: (raw_addr_3 % 0x10000) as u16,
                    s6: (raw_addr_4 / 0x10000) as u16,
                    s7: (raw_addr_4 % 0x10000) as u16,
                };
                Ok(DnsRecord::AAAA { domain, addr, ttl })
            },
            QueryType::NS => {
                let mut ns = String::new();
                buf.read_qname(&mut ns)?;
                Ok(DnsRecord::NS { domain, host: ns, ttl })
            },
            QueryType::CNAME => {
                let mut cname = String::new();
                buf.read_qname(&mut cname)?;
                Ok(DnsRecord::CNAME { domain, host: cname, ttl })
            },
            QueryType::MX => {
                let prio = buf.read_u16()?;
                let mut mx = String::new();
                buf.read_qname(&mut mx)?;
                Ok(DnsRecord::MX { domain, priority: prio, host: mx, ttl })
            },
            QueryType::UNKNOWN(_) => {
                buf.step(len as usize)?;
                Ok(DnsRecord::UNKNOWN { domain, q_type: q_type_u16, len, ttl })
            },
        }
    }

    /// Encode this record at the buffer's cursor and return how many
    /// bytes it took.  The length field of a name-carrying payload is
    /// written as zero first and patched once the name's size is known.
    /// An unrecognized record is not written at all and takes zero bytes.
    pub fn write(&self, buf: &mut PacketBuffer) -> (r: Result<usize, DnsError>)
        ensures
            match r {
                Ok(n) => record_ok(self@) && (match self@ {
                    RecordModel::Unknown { .. } => n == 0 && *final(buf) == *old(buf),
                    _ => {
                        let w = record_wire(self@);
                        &&& old(buf).pos + w.len() <= BUF_SIZE
                        &&& final(buf).buf@ == splice(old(buf).buf@, old(buf).pos as int, w)
                        &&& final(buf).pos == old(buf).pos + w.len()
                        &&& n == w.len()
                    },
                }),
                Err(e) => {
                    let w = record_wire(self@);
                    &&& !(self@ is Unknown)
                    &&& !(record_ok(self@) && old(buf).pos + w.len() <= BUF_SIZE)
                    &&& (e == DnsError::LabelTooLong ==> !record_ok(self@))
                    &&& (e == DnsError::OutOfBounds ==> old(buf).pos + w.len() > BUF_SIZE)
                    &&& (e == DnsError::LabelTooLong || e == DnsError::OutOfBounds)
                    &&& final(buf).pos >= old(buf).pos
                    &&& unchanged_outside(
                        old(buf).buf@,
                        final(buf).buf@,
                        old(buf).pos as int,
                        final(buf).pos as int,
                    )
                },
            },
    {
        let start = buf.pos();

        match self {
            DnsRecord::A { domain, addr_v4, ttl } => {
                self.write_a(buf, domain, *addr_v4, *ttl)?;
            },
            DnsRecord::NS { domain, host, ttl } => {
                self.write_name_payload(buf, domain, host, None, *ttl, 2)?;
            },
            DnsRecord::CNAME { domain, host, ttl } => {
                self.write_name_payload(buf, domain, host, None, *ttl, 5)?;
            },
            DnsRecord::MX { domain, priority, host, ttl } => {
                self.write_name_payload(buf, domain, host, Some(*priority), *ttl, 15)?;
            },
            DnsRecord::AAAA { domain, addr, ttl } => {
                self.write_aaaa(buf, domain, *addr, *ttl)?;
            },
            DnsRecord::UNKNOWN { .. } => {},
        }

        Ok(buf.pos() - start)
    }

    /// The address-record payload: a fixed length of four and the raw
    /// octets.
    #[verifier::rlimit(50)]
    fn write_a(
        &self,
        buf: &mut PacketBuffer,
        domain: &String,
        addr_v4: Ipv4Address,
        ttl: u32,
    ) -> (r: Result<(), DnsError>)
        requires
            self@ == (RecordModel::A { domain: domain@, addr_v4, ttl }),
        ensures
            match r {
                Ok(()) => {
                    let w = record_wire(self@);
                    &&& record_ok(self@)
                    &&& old(buf).pos + w.len() <= BUF_SIZE
                    &&& final(buf).buf@ == splice(old(buf).buf@, old(buf).pos as int, w)
                    &&& final(buf).pos == old(buf).pos + w.len()
                },
                Err(e) => {
                    let w = record_wire(self@);
                    &&& !(record_ok(self@) && old(buf).pos + w.len() <= BUF_SIZE)
                    &&& (e == DnsError::LabelTooLong ==> !record_ok(self@))
                    &&& (e == DnsError::OutOfBounds ==> old(buf).pos + w.len() > BUF_SIZE)
                    &&& (e == DnsError::LabelTooLong || e == DnsError::OutOfBounds)
                    &&& final(buf).pos >= old(buf).pos
                    &&& unchanged_outside(
                        old(buf).buf@,
                        final(buf).buf@,
                        old(buf).pos as int,
                        final(buf).pos as int,
                    )
                },
            },
    {
        let ghost buf0 = buf.buf@;
        let ghost pos0 = buf.pos as int;
        proof {
            lemma_name_wire_len(encode_utf8(domain@));
        }
        buf.write_qname(domain.as_str())?;
        let ghost w1 = name_wire(encode_utf8(domain@));
        buf.write_u16(QueryType::A.to_u16())?;
        proof {
            lemma_splice_concat(buf0, pos0, w1, u16_bytes(1));
        }
        let ghost w2 = w1 + u16_bytes(1);
        buf.write_u16(1)?;
        proof {
            lemma_splice_concat(buf0, pos0, w2, u16_bytes(1));
        }
        let ghost w3 = w2 + u16_bytes(1);
        buf.write_u32(ttl)?;
        proof {
            lemma_splice_concat(buf0, pos0, w3, u32_bytes(ttl));
        }
        let ghost w4 = w3 + u32_bytes(ttl);
        buf.write_u16(4)?;
        proof {
            lemma_splice_concat(buf0, pos0, w4, u16_bytes(4));
        }
        let ghost w5 = w4 + u16_bytes(4);

        buf.write_u8(addr_v4.o0)?;
        proof {
            lemma_update_is_splice(splice(buf0, pos0, w5), pos0 + w5.len(), addr_v4.o0);
            lemma_splice_concat(buf0, pos0, w5, seq![addr_v4.o0]);
        }
        let ghost w6 = w5 + seq![addr_v4.o0];
        buf.write_u8(addr_v4.o1)?;
        proof {
            lemma_update_is_splice(splice(buf0, pos0, w6), pos0 + w6.len(), addr_v4.o1);
            lemma_splice_concat(buf0, pos0, w6, seq![addr_v4.o1]);
        }
        let ghost w7 = w6 + seq![addr_v4.o1];
        buf.write_u8(addr_v4.o2)?;
        proof {
            lemma_update_is_splice(splice(buf0, pos0, w7), pos0 + w7.len(), addr_v4.o2);
            lemma_splice_concat(buf0, pos0, w7, seq![addr_v4.o2]);
        }
        let ghost w8 = w7 + seq![addr_v4.o2];
        buf.write_u8(addr_v4.o3)?;
        proof {
            lemma_update_is_splice(splice(buf0, pos0, w8), pos0 + w8.len(), addr_v4.o3);
            lemma_splice_concat(buf0, pos0, w8, seq![addr_v4.o3]);
            assert(w8 + seq![addr_v4.o3] =~= record_wire(self@));
        }
        Ok(())
    }

    /// The IPv6 address-record payload: a fixed length of sixteen and the
    /// eight 16-bit groups.
    #[verifier::rlimit(50)]
    fn write_aaaa(
        &self,
        buf: &mut PacketBuffer,
        domain: &String,
        addr: Ipv6Address,
        ttl: u32,
    ) -> (r: Result<(), DnsError>)
        requires
            self@ == (RecordModel::Aaaa { domain: domain@, addr, ttl }),
        ensures
            match r {
                Ok(()) => {
                    let w = record_wire(self@);
                    &&& record_ok(self@)
                    &&& old(buf).pos + w.len() <= BUF_SIZE
                    &&& final(buf).buf@ == splice(old(buf).buf@, old(buf).pos as int, w)
                    &&& final(buf).pos == old(buf).pos + w.len()
                },
                Err(e) => {
                    let w = record_wire(self@);
                    &&& !(record_ok(self@) && old(buf).pos + w.len() <= BUF_SIZE)
                    &&& (e == DnsError::LabelTooLong ==> !record_ok(self@))
                    &&& (e == DnsError::OutOfBounds ==> old(buf).pos + w.len() > BUF_SIZE)
                    &&& (e == DnsError::LabelTooLong || e == DnsError::OutOfBounds)
                    &&& final(buf).pos >= old(buf).pos
                    &&& unchanged_outside(
                        old(buf).buf@,
                        final(buf).buf@,
                        old(buf).pos as int,
                        final(buf).pos as int,
                    )
                },
            },
    {
        let ghost buf0 = buf.buf@;
        let ghost pos0 = buf.pos as int;
        proof {
            lemma_name_wire_len(encode_utf8(domain@));
        }
        buf.write_qname(domain.as_str())?;
        let ghost w1 = name_wire(encode_utf8(domain@));
        buf.write_u16(QueryType::AAAA.to_u16())?;
        proof {
            lemma_splice_concat(buf0, pos0, w1, u16_bytes(28));
        }
        let ghost w2 = w1 + u16_bytes(28);
        buf.write_u16(1)?;
        proof {
            lemma_splice_concat(buf0, pos0, w2, u16_bytes(1));
        }
        let ghost w3 = w2 + u16_bytes(1);
        buf.write_u32(ttl)?;
        proof {
            lemma_splice_concat(buf0, pos0, w3, u32_bytes(ttl));
        }
        let ghost w4 = w3 + u32_bytes(ttl);
        buf.write_u16(16)?;
        proof {
            lemma_splice_concat(buf0, pos0, w4, u16_bytes(16));
        }
        let ghost w5 = w4 + u16_bytes(16);

        buf.write_u16(addr.s0)?;
        proof {
            lemma_splice_concat(buf0, pos0, w5, u16_bytes(addr.s0));
        }
        let ghost w6 = w5 + u16_bytes(addr.s0);
        buf.write_u16(addr.s1)?;
        proof {
            lemma_splice_concat(buf0, pos0, w6, u16_bytes(addr.s1));
        }
        let ghost w7 = w6 + u16_bytes(addr.s1);
        buf.write_u16(addr.s2)?;
        proof {
            lemma_splice_concat(buf0, pos0, w7, u16_bytes(addr.s2));
        }
        let ghost w8 = w7 + u16_bytes(addr.s2);
        buf.write_u16(addr.s3)?;
        proof {
            lemma_splice_concat(buf0, pos0, w8, u16_bytes(addr.s3));
        }
        let ghost w9 = w8 + u16_bytes(addr.s3);
        buf.write_u16(addr.s4)?;
        proof {
            lemma_splice_concat(buf0, pos0, w9, u16_bytes(addr.s4));
        }
        let ghost w10 = w9 + u16_bytes(addr.s4);
        buf.write_u16(addr.s5)?;
        proof {
            lemma_splice_concat(buf0, pos0, w10, u16_bytes(addr.s5));
        }
        let ghost w11 = w10 + u16_bytes(addr.s5);
        buf.write_u16(addr.s6)?;
        proof {
            lemma_splice_concat(buf0, pos0, w11, u16_bytes(addr.s6));
        }
        let ghost w12 = w11 + u16_bytes(addr.s6);
        buf.write_u16(addr.s7)?;
        proof {
            lemma_splice_concat(buf0, pos0, w12, u16_bytes(addr.s7));
            assert(w12 + u16_bytes(addr.s7) =~= record_wire(self@));
        }
        Ok(())
    }

    /// The shared body of the three record payloads that carry a nested
    /// name: writes name, type code, class and time to live, a zero
    /// placeholder for the payload length, the priority if one is given,
    /// and the nested name, then patches the placeholder with the bytes
    /// the payload took.
    #[verifier::rlimit(100)]
    fn write_name_payload(
        &self,
        buf: &mut PacketBuffer,
        domain: &String,
        host: &String,
        priority: Option<u16>,
        ttl: u32,
        type_code: u16,
    ) -> (r: Result<(), DnsError>)
        requires
            match self@ {
                RecordModel::Ns { domain: d, host: h, ttl: t } => d == domain@ && h == host@ && t
                    == ttl && priority is None && type_code == 2,
                RecordModel::Cname { domain: d, host: h, ttl: t } => d == domain@ && h == host@
                    && t == ttl && priority is None && type_code == 5,
                RecordModel::Mx { domain: d, priority: p, host: h, ttl: t } => d == domain@ && h
                    == host@ && t == ttl && priority == Some(p) && type_code == 15,
                _ => false,
            },
        ensures
            match r {
                Ok(()) => {
                    let w = record_wire(self@);
                    &&& record_ok(self@)
                    &&& old(buf).pos + w.len() <= BUF_SIZE
                    &&& final(buf).buf@ == splice(old(buf).buf@, old(buf).pos as int, w)
                    &&& final(buf).pos == old(buf).pos + w.len()
                },
                Err(e) => {
                    let w = record_wire(self@);
                    &&& !(record_ok(self@) && old(buf).pos + w.len() <= BUF_SIZE)
                    &&& (e == DnsError::LabelTooLong ==> !record_ok(self@))
                    &&& (e == DnsError::OutOfBounds ==> old(buf).pos + w.len() > BUF_SIZE)
                    &&& (e == DnsError::LabelTooLong || e == DnsError::OutOfBounds)
                    &&& final(buf).pos >= old(buf).pos
                    &&& unchanged_outside(
                        old(buf).buf@,
                        final(buf).buf@,
                        old(buf).pos as int,
                        final(buf).pos as int,
                    )
                },
            },
    {
        let ghost buf0 = buf.buf@;
        let ghost pos0 = buf.pos as int;
        let ghost host_extra: int = if priority is Some {
            4
        } else {
            2
        };
        proof {
            lemma_name_wire_len(encode_utf8(domain@));
            lemma_name_wire_len(encode_utf8(host@));
        }
        buf.write_qname(domain.as_str())?;
        let ghost w1 = name_wire(encode_utf8(domain@));
        buf.write_u16(type_code)?;
        proof {
            lemma_splice_concat(buf0, pos0, w1, u16_bytes(type_code));
        }
        let ghost w2 = w1 + u16_bytes(type_code);
        buf.write_u16(1)?;
        proof {
            lemma_splice_concat(buf0, pos0, w2, u16_bytes(1));
        }
        let ghost w3 = w2 + u16_bytes(1);
        buf.write_u32(ttl)?;
        proof {
            lemma_splice_concat(buf0, pos0, w3, u32_bytes(ttl));
        }
        let ghost w4 = w3 + u32_bytes(ttl);

        let pos_len = buf.pos();
        buf.write_u16(0)?;
        proof {
            lemma_splice_concat(buf0, pos0, w4, u16_bytes(0));
        }
        let ghost w5 = w4 + u16_bytes(0);

        let ghost w6 = if priority is Some {
            w5 + u16_bytes(priority->0)
        } else {
            w5
        };
        match priority {
            Some(p) => {
                buf.write_u16(p)?;
                proof {
                    lemma_splice_concat(buf0, pos0, w5, u16_bytes(priority->0));
                }
            },
            None => {},
        }

        buf.write_qname(host.as_str())?;
        proof {
            lemma_splice_concat(buf0, pos0, w6, name_wire(encode_utf8(host@)));
        }

        let size = buf.pos() - (pos_len + 2);
        buf.set_u16(pos_len, size as u16)?;
        proof {
            let hw = name_wire(encode_utf8(host@));
            let tail: Seq<u8> = if priority is Some {
                u16_bytes(priority->0) + hw
            } else {
                hw
            };
            assert(w6 + hw =~= w4 + (u16_bytes(0) + tail));
            lemma_splice_patch(
                buf0,
                pos0,
                w4,
                u16_bytes(0),
                u16_bytes((encode_utf8(host@).len() + host_extra) as u16),
                tail,
            );
            assert(w4 + (u16_bytes((encode_utf8(host@).len() + host_extra) as u16) + tail)
                =~= record_wire(self@));
        }
        Ok(())
    }
}

} // verus!
