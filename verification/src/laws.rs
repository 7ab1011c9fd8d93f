//! The laws the codec obeys, each proved against the spec functions the
//! executable codecs are specified by: round trips for names, headers and
//! records, agreement of compression-pointer entry points, and failure of
//! pointer cycles.
use vstd::prelude::*;

use crate::BUF_SIZE;
use crate::DnsError;
use crate::name::LABEL_SEP;
use crate::name::MAX_JUMPS;
use crate::name::byte_char;
use crate::name::first_sep;
use crate::name::joined;
use crate::name::lemma_first_sep;
use crate::name::lemma_name_wire_len;
use crate::name::name_chars;
use crate::name::name_wire;
use crate::name::parse_name;
use crate::name::pointer_target;
use crate::name::valid_name_bytes;
use crate::record::RecordModel;
use crate::record::parse_record;
use crate::record::record_wire;
use crate::splice;
use crate::u16_bytes;
use crate::u16_of;
use crate::u32_bytes;
use crate::u32_of;
use vstd::utf8::encode_utf8;

verus! {

/// Decoding the wire form of a name whose labels are all between 1 and 63
/// bytes yields exactly its lowercased characters, with the cursor just
/// past the terminating zero byte — whatever part of the jump budget was
/// already spent reaching the wire bytes (a pointer chase may land here).
/// A name with an empty label is left out: its encoding holds a zero
/// length byte in the middle, where the decoder stops early.
pub proof fn lemma_parse_name_wire(buf: Seq<u8>, pos: int, s: Seq<u8>, jumps: nat)
    requires
        buf.len() == BUF_SIZE,
        valid_name_bytes(s),
        jumps <= MAX_JUMPS,
        0 <= pos,
        pos + s.len() + 2 <= BUF_SIZE,
        buf.subrange(pos, pos + s.len() + 2) == name_wire(s),
    ensures
        parse_name(buf, pos as nat, jumps) == Ok::<(Seq<char>, nat), DnsError>(
            (name_chars(s), (pos + s.len() + 2) as nat),
        ),
    decreases s.len(),
{
    lemma_first_sep(s);
    lemma_name_wire_len(s);
    let j = first_sep(s);
    let len_byte = j as u8;
    assert(buf[pos] == name_wire(s)[0]);
    assert(name_wire(s)[0] == len_byte);
    assert(len_byte & 0xC0 != 0xC0) by (bit_vector)
        requires
            len_byte <= 63,
    ;
    assert(len_byte != 0);
    assert forall|i: int| 0 <= i < j implies buf.subrange(pos + 1, pos + 1 + j)[i] == s.take(j)[i] by {
        assert(buf.subrange(pos, pos + s.len() + 2)[i + 1] == name_wire(s)[i + 1]);
        assert(name_wire(s)[i + 1] == s[i]);
    }
    assert(buf.subrange(pos + 1, pos + 1 + j) =~= s.take(j));
    if j == s.len() {
        assert(buf.subrange(pos, pos + s.len() + 2)[j + 1] == name_wire(s)[j + 1]);
        assert(buf[pos + 1 + j] == name_wire(s)[j + 1]);
        assert(name_wire(s)[j + 1] == 0);
        assert(0u8 & 0xC0 != 0xC0) by (bit_vector);
        let rest = parse_name(buf, (pos + 1 + j) as nat, jumps);
        assert(rest == Ok::<(Seq<char>, nat), DnsError>(
            (Seq::<char>::empty(), (pos + j + 2) as nat),
        ));
        assert(name_chars(s.take(j)) + joined(true, Seq::<char>::empty()) =~= name_chars(s));
    } else {
        let rest = s.skip(j + 1);
        assert(valid_name_bytes(rest));
        lemma_name_wire_len(rest);
        assert(buf.subrange(pos + 1 + j, pos + 1 + j + rest.len() + 2) =~= name_wire(rest)) by {
            assert(forall|i: int|
                0 <= i < rest.len() + 2 ==> #[trigger] buf.subrange(pos, pos + s.len() + 2)[i + 1
                    + j] == name_wire(s)[i + 1 + j]);
            assert(forall|i: int|
                0 <= i < rest.len() + 2 ==> name_wire(s)[i + 1 + j] == #[trigger] name_wire(
                    rest,
                )[i]);
        }
        lemma_parse_name_wire(buf, pos + 1 + j, rest, jumps);
        lemma_first_sep(rest);
        assert(name_chars(rest).len() >= 1);
        assert(name_chars(s.take(j)) + joined(true, name_chars(rest)) =~= name_chars(s)) by {
            assert(s[j] == LABEL_SEP);
            assert(byte_char(LABEL_SEP) == '.');
            assert(forall|i: int| 0 <= i < rest.len() ==> #[trigger] rest[i] == s[i + j + 1]);
        }
    }
}

/// A character ASCII-lowercased.
pub open spec fn lower_char(c: char) -> char {
    if 'A' <= c <= 'Z' {
        ((c as u8) + 0x20) as char
    } else {
        c
    }
}

/// A character sequence ASCII-lowercased.
pub open spec fn lower_chars(s: Seq<char>) -> Seq<char> {
    Seq::new(s.len(), |i: int| lower_char(s[i]))
}

/// Decoding a byte of an ASCII character gives that character lowercased.
proof fn lemma_byte_char_ascii(c: char)
    requires
        c <= '\u{7f}',
    ensures
        byte_char(c as u8) == lower_char(c),
{
    broadcast use vstd::utf8::char_u32_cast;

    vstd::utf8::char_is_scalar(c);
}

/// Law: decoding the encoding of a domain name gives the name back,
/// lowercased.  This holds of every ASCII name whose labels are all
/// between 1 and 63 bytes and hold no separator; `valid_name_bytes` states
/// exactly that over the name's bytes.
pub proof fn lemma_name_round_trip(buf: Seq<u8>, pos: int, n: Seq<char>)
    requires
        buf.len() == BUF_SIZE,
        vstd::utf8::is_ascii_chars(n),
        valid_name_bytes(encode_utf8(n)),
        0 <= pos,
        pos + n.len() + 2 <= BUF_SIZE,
        buf.subrange(pos, pos + encode_utf8(n).len() + 2) == name_wire(encode_utf8(n)),
    ensures
        parse_name(buf, pos as nat, 0) == Ok::<(Seq<char>, nat), DnsError>(
            (lower_chars(n), (pos + n.len() + 2) as nat),
        ),
{
    vstd::utf8::is_ascii_chars_encode_utf8(n);
    lemma_parse_name_wire(buf, pos, encode_utf8(n), 0);
    assert(name_chars(encode_utf8(n)) =~= lower_chars(n)) by {
        assert forall|i: int| 0 <= i < n.len() implies name_chars(encode_utf8(n))[i] == lower_chars(
            n,
        )[i] by {
            assert(encode_utf8(n)[i] == n[i] as u8);
            assert(n[i] <= '\u{7f}');
            lemma_byte_char_ascii(n[i]);
        }
    }
}

/// Law: a name the encoder has just written into a buffer decodes from
/// the same offset back to the name, lowercased: the encode-then-decode
/// round trip, stated over the buffer `write_qname` leaves behind.
pub proof fn lemma_name_encode_decode(buf0: Seq<u8>, pos: int, n: Seq<char>)
    requires
        buf0.len() == BUF_SIZE,
        vstd::utf8::is_ascii_chars(n),
        valid_name_bytes(encode_utf8(n)),
        0 <= pos,
        pos + n.len() + 2 <= BUF_SIZE,
    ensures
        parse_name(splice(buf0, pos, name_wire(encode_utf8(n))), pos as nat, 0) == Ok::<
            (Seq<char>, nat),
            DnsError,
        >((lower_chars(n), (pos + n.len() + 2) as nat)),
{
    vstd::utf8::is_ascii_chars_encode_utf8(n);
    lemma_name_wire_len(encode_utf8(n));
    let buf = splice(buf0, pos, name_wire(encode_utf8(n)));
    assert(buf.subrange(pos, pos + encode_utf8(n).len() + 2) =~= name_wire(encode_utf8(n)));
    lemma_name_round_trip(buf, pos, n);
}

/// Law: two entry points that both hold a compression pointer to the same
/// offset decode to exactly the same outcome: the same name characters
/// when both succeed, and they succeed together.
pub proof fn lemma_pointer_entry_points_agree(buf: Seq<u8>, p1: nat, p2: nat)
    requires
        buf.len() == BUF_SIZE,
        p1 + 1 < BUF_SIZE,
        p2 + 1 < BUF_SIZE,
        buf[p1 as int] & 0xC0 == 0xC0,
        buf[p2 as int] & 0xC0 == 0xC0,
        pointer_target(buf[p1 as int], buf[p1 as int + 1]) == pointer_target(
            buf[p2 as int],
            buf[p2 as int + 1],
        ),
    ensures
        parse_name(buf, p1, 0) is Ok <==> parse_name(buf, p2, 0) is Ok,
        parse_name(buf, p1, 0) is Ok ==> parse_name(buf, p1, 0)->Ok_0.0 == parse_name(
            buf,
            p2,
            0,
        )->Ok_0.0,
        parse_name(buf, p1, 0) is Err ==> parse_name(buf, p1, 0) == parse_name(buf, p2, 0),
{
}

/// Law: the characters decoded from one offset do not depend on how many
/// pointer jumps it took to get there.  Two decodes that reach the same
/// offset — say each followed its own chain of compression pointers
/// there — read the same labels from it whenever both succeed, however
/// much of their jump budgets they spent on the way.
pub proof fn lemma_parse_name_jumps_agree(buf: Seq<u8>, pos: nat, j1: nat, j2: nat)
    ensures
        (parse_name(buf, pos, j1) is Ok && parse_name(buf, pos, j2) is Ok) ==> parse_name(
            buf,
            pos,
            j1,
        )->Ok_0.0 == parse_name(buf, pos, j2)->Ok_0.0,
    decreases 12 - j1 - j2, BUF_SIZE - pos,
{
    if j1 > MAX_JUMPS || j2 > MAX_JUMPS || pos >= BUF_SIZE as nat {
    } else {
        let len = buf[pos as int];
        if len & 0xC0 == 0xC0 {
            if pos + 1 < BUF_SIZE {
                let target = pointer_target(len, buf[pos as int + 1]) as nat;
                if target < BUF_SIZE {
                    lemma_parse_name_jumps_agree(buf, target, (j1 + 1) as nat, (j2 + 1) as nat);
                }
            }
        } else if len == 0 {
        } else {
            if pos + 1 + len < BUF_SIZE {
                lemma_parse_name_jumps_agree(buf, (pos + 1 + len) as nat, j1, j2);
            }
        }
    }
}

/// A run of wire bytes holds a 16-bit field right after `prefix`: reading
/// its two bytes back gives the value.
proof fn lemma_u16_field(buf: Seq<u8>, pos: int, w: Seq<u8>, prefix: Seq<u8>, v: u16)
    requires
        0 <= pos,
        pos + w.len() <= buf.len(),
        buf.subrange(pos, pos + w.len()) == w,
        prefix.len() as int + 2 <= w.len(),
        w.subrange(prefix.len() as int, prefix.len() as int + 2) == u16_bytes(v),
    ensures
        u16_of(buf[pos + prefix.len() as int], buf[pos + prefix.len() as int + 1]) == v,
{
    crate::lemma_u16_round_trip(v);
    assert(buf.subrange(pos, pos + w.len())[prefix.len() as int] == w[prefix.len() as int]);
    assert(buf.subrange(pos, pos + w.len())[prefix.len() as int + 1] == w[prefix.len() as int + 1]);
    assert(w[prefix.len() as int] == u16_bytes(v)[0]);
    assert(w[prefix.len() as int + 1] == u16_bytes(v)[1]);
}

/// A run of wire bytes holds a 32-bit field right after `prefix`: reading
/// its four bytes back gives the value.
proof fn lemma_u32_field(buf: Seq<u8>, pos: int, w: Seq<u8>, prefix: Seq<u8>, v: u32)
    requires
        0 <= pos,
        pos + w.len() <= buf.len(),
        buf.subrange(pos, pos + w.len()) == w,
        prefix.len() as int + 4 <= w.len(),
        w.subrange(prefix.len() as int, prefix.len() as int + 4) == u32_bytes(v),
    ensures
        u32_of(
            buf[pos + prefix.len() as int],
            buf[pos + prefix.len() as int + 1],
            buf[pos + prefix.len() as int + 2],
            buf[pos + prefix.len() as int + 3],
        ) == v,
{
    crate::lemma_u32_round_trip(v);
    assert(forall|k: int|
        0 <= k < 4 ==> #[trigger] buf.subrange(pos, pos + w.len())[prefix.len() as int + k] == w[prefix.len()
            + k]);
    assert(forall|k: int| 0 <= k < 4 ==> w[prefix.len() as int + k] == #[trigger] u32_bytes(v)[k]);
}

/// A run of wire bytes holds `inner` right after `prefix`: the matching
/// region of the buffer is `inner`.
proof fn lemma_sub_wire(buf: Seq<u8>, pos: int, w: Seq<u8>, prefix: Seq<u8>, inner: Seq<u8>)
    requires
        0 <= pos,
        pos + w.len() <= buf.len(),
        buf.subrange(pos, pos + w.len()) == w,
        prefix.len() as int + inner.len() <= w.len(),
        w.subrange(prefix.len() as int, prefix.len() as int + inner.len()) == inner,
    ensures
        buf.subrange(pos + prefix.len(), pos + prefix.len() as int + inner.len()) == inner,
{
    assert forall|k: int|
        0 <= k < inner.len() implies buf.subrange(
        pos + prefix.len(),
        pos + prefix.len() as int + inner.len(),
    )[k] == inner[k] by {
        assert(buf.subrange(pos, pos + w.len())[prefix.len() as int + k] == w[prefix.len() as int + k]);
        assert(w[prefix.len() as int + k] == inner[k]);
    }
    assert(buf.subrange(pos + prefix.len(), pos + prefix.len() as int + inner.len()) =~= inner);
}

/// A name that decodes to itself: in ASCII, already lowercase, every label
/// between 1 and 63 bytes.
pub open spec fn name_normalized(nm: Seq<char>) -> bool {
    valid_name_bytes(encode_utf8(nm)) && name_chars(encode_utf8(nm)) == nm
}

/// Every name the record carries decodes to itself; the record is one of
/// the five modeled types, so it reaches the wire at all.
pub open spec fn record_normalized(m: RecordModel) -> bool {
    match m {
        RecordModel::Unknown { .. } => false,
        RecordModel::A { domain, .. } => name_normalized(domain),
        RecordModel::Ns { domain, host, .. } => name_normalized(domain) && name_normalized(host),
        RecordModel::Cname { domain, host, .. } => name_normalized(domain) && name_normalized(
            host,
        ),
        RecordModel::Mx { domain, host, .. } => name_normalized(domain) && name_normalized(host),
        RecordModel::Aaaa { domain, .. } => name_normalized(domain),
    }
}

/// Law: for each of the five modeled record types, decoding an encoded
/// record yields the record back, with the cursor just past it.  It holds
/// of every record whose names decode to themselves: in ASCII, lowercase,
/// with labels of 1 to 63 bytes.
#[verifier::rlimit(100)]
pub proof fn lemma_record_round_trip(buf: Seq<u8>, pos: int, m: RecordModel)
    requires
        buf.len() == BUF_SIZE,
        record_normalized(m),
        0 <= pos,
        pos + record_wire(m).len() <= BUF_SIZE,
        buf.subrange(pos, pos + record_wire(m).len()) == record_wire(m),
    ensures
        parse_record(buf, pos as nat) == Ok::<(RecordModel, nat), DnsError>(
            (m, (pos + record_wire(m).len()) as nat),
        ),
{
    let w = record_wire(m);
    let d = match m {
        RecordModel::Unknown { domain, .. } => domain,
        RecordModel::A { domain, .. } => domain,
        RecordModel::Ns { domain, .. } => domain,
        RecordModel::Cname { domain, .. } => domain,
        RecordModel::Mx { domain, .. } => domain,
        RecordModel::Aaaa { domain, .. } => domain,
    };
    let db = encode_utf8(d);
    let dw = name_wire(db);
    lemma_name_wire_len(db);
    let t: u16 = match m {
        RecordModel::Unknown { q_type, .. } => q_type,
        RecordModel::A { .. } => 1,
        RecordModel::Ns { .. } => 2,
        RecordModel::Cname { .. } => 5,
        RecordModel::Mx { .. } => 15,
        RecordModel::Aaaa { .. } => 28,
    };
    let ttl: u32 = match m {
        RecordModel::Unknown { ttl, .. } => ttl,
        RecordModel::A { ttl, .. } => ttl,
        RecordModel::Ns { ttl, .. } => ttl,
        RecordModel::Cname { ttl, .. } => ttl,
        RecordModel::Mx { ttl, .. } => ttl,
        RecordModel::Aaaa { ttl, .. } => ttl,
    };
    let dwl = dw.len() as int;
    assert(w.subrange(0, dwl) =~= dw);
    lemma_sub_wire(buf, pos, w, Seq::empty(), dw);
    assert(buf.subrange(pos, pos + db.len() + 2) == dw) by {
        assert(buf.subrange(pos + Seq::<u8>::empty().len(), pos + Seq::<u8>::empty().len()
            + dw.len()) == dw);
    }
    lemma_parse_name_wire(buf, pos, db, 0);
    let p1 = pos + dwl;
    assert(w.subrange(dwl, dwl + 2) =~= u16_bytes(t));
    lemma_u16_field(buf, pos, w, dw, t);
    assert(w.subrange(dwl + 4, dwl + 8) =~= u32_bytes(ttl));
    lemma_u32_field(buf, pos, w, dw + u16_bytes(t) + u16_bytes(1), ttl);
    let p2 = p1 + 10;
    match m {
        RecordModel::Unknown { .. } => {},
        RecordModel::A { domain, addr_v4, ttl: _ } => {
            let prefix = dw + u16_bytes(1) + u16_bytes(1) + u32_bytes(ttl) + u16_bytes(4);
            assert(forall|k: int|
                0 <= k < 4 ==> #[trigger] buf.subrange(pos, pos + w.len())[dwl + 10 + k] == w[dwl
                    + 10 + k]);
            assert(w[dwl + 10] == addr_v4.o0 && w[dwl + 11] == addr_v4.o1 && w[dwl + 12]
                == addr_v4.o2 && w[dwl + 13] == addr_v4.o3);
            assert(parse_record(buf, pos as nat)->Ok_0.0 == m);
        },
        RecordModel::Ns { domain, host, ttl: _ } => {
            let hb = encode_utf8(host);
            let hw = name_wire(hb);
            lemma_name_wire_len(hb);
            let prefix = dw + u16_bytes(2) + u16_bytes(1) + u32_bytes(ttl) + u16_bytes(
                (hb.len() + 2) as u16,
            );
            assert(w.subrange(prefix.len() as int, prefix.len() as int + hw.len()) =~= hw);
            lemma_sub_wire(buf, pos, w, prefix, hw);
            assert(buf.subrange(p2, p2 + hb.len() + 2) == hw);
            lemma_parse_name_wire(buf, p2, hb, 0);
        },
        RecordModel::Cname { domain, host, ttl: _ } => {
            let hb = encode_utf8(host);
            let hw = name_wire(hb);
            lemma_name_wire_len(hb);
            let prefix = dw + u16_bytes(5) + u16_bytes(1) + u32_bytes(ttl) + u16_bytes(
                (hb.len() + 2) as u16,
            );
            assert(w.subrange(prefix.len() as int, prefix.len() as int + hw.len()) =~= hw);
            lemma_sub_wire(buf, pos, w, prefix, hw);
            assert(buf.subrange(p2, p2 + hb.len() + 2) == hw);
            lemma_parse_name_wire(buf, p2, hb, 0);
        },
        RecordModel::Mx { domain, priority, host, ttl: _ } => {
            let hb = encode_utf8(host);
            let hw = name_wire(hb);
            lemma_name_wire_len(hb);
            let prefix = dw + u16_bytes(15) + u16_bytes(1) + u32_bytes(ttl) + u16_bytes(
                (hb.len() + 4) as u16,
            );
            assert(w.subrange(prefix.len() as int, prefix.len() as int + 2) =~= u16_bytes(priority));
            lemma_u16_field(buf, pos, w, prefix, priority);
            let prefix2 = prefix + u16_bytes(priority);
            assert(w.subrange(prefix2.len() as int, prefix2.len() as int + hw.len()) =~= hw);
            lemma_sub_wire(buf, pos, w, prefix2, hw);
            assert(buf.subrange(p2 + 2, p2 + 2 + hb.len() + 2) == hw);
            lemma_parse_name_wire(buf, p2 + 2, hb, 0);
        },
        RecordModel::Aaaa { domain, addr, ttl: _ } => {
            let prefix = dw + u16_bytes(28) + u16_bytes(1) + u32_bytes(ttl) + u16_bytes(16);
            assert(w.subrange(prefix.len() as int, prefix.len() as int + 2) =~= u16_bytes(addr.s0));
            lemma_u16_field(buf, pos, w, prefix, addr.s0);
            assert(w.subrange(prefix.len() as int + 2, prefix.len() as int + 4) =~= u16_bytes(addr.s1));
            lemma_u16_field(buf, pos, w, prefix + u16_bytes(addr.s0), addr.s1);
            assert(w.subrange(prefix.len() as int + 4, prefix.len() as int + 6) =~= u16_bytes(addr.s2));
            lemma_u16_field(buf, pos, w, prefix + u16_bytes(addr.s0) + u16_bytes(addr.s1), addr.s2);
            assert(w.subrange(prefix.len() as int + 6, prefix.len() as int + 8) =~= u16_bytes(addr.s3));
            lemma_u16_field(
                buf,
                pos,
                w,
                prefix + u16_bytes(addr.s0) + u16_bytes(addr.s1) + u16_bytes(addr.s2),
                addr.s3,
            );
            assert(w.subrange(prefix.len() as int + 8, prefix.len() as int + 10) =~= u16_bytes(addr.s4));
            lemma_u16_field(
                buf,
                pos,
                w,
                prefix + u16_bytes(addr.s0) + u16_bytes(addr.s1) + u16_bytes(addr.s2) + u16_bytes(
                    addr.s3,
                ),
                addr.s4,
            );
            assert(w.subrange(prefix.len() as int + 10, prefix.len() as int + 12) =~= u16_bytes(addr.s5));
            lemma_u16_field(
                buf,
                pos,
                w,
                prefix + u16_bytes(addr.s0) + u16_bytes(addr.s1) + u16_bytes(addr.s2) + u16_bytes(
                    addr.s3,
                ) + u16_bytes(addr.s4),
                addr.s5,
            );
            assert(w.subrange(prefix.len() as int + 12, prefix.len() as int + 14) =~= u16_bytes(addr.s6));
            lemma_u16_field(
                buf,
                pos,
                w,
                prefix + u16_bytes(addr.s0) + u16_bytes(addr.s1) + u16_bytes(addr.s2) + u16_bytes(
                    addr.s3,
                ) + u16_bytes(addr.s4) + u16_bytes(addr.s5),
                addr.s6,
            );
            assert(w.subrange(prefix.len() as int + 14, prefix.len() as int + 16) =~= u16_bytes(addr.s7));
            lemma_u16_field(
                buf,
                pos,
                w,
                prefix + u16_bytes(addr.s0) + u16_bytes(addr.s1) + u16_bytes(addr.s2) + u16_bytes(
                    addr.s3,
                ) + u16_bytes(addr.s4) + u16_bytes(addr.s5) + u16_bytes(addr.s6),
                addr.s7,
            );
        },
    }
}

/// Law: a record the encoder has just written into a buffer decodes from
/// the same offset back to the record: the encode-then-decode round trip
/// for each of the five modeled record types, stated over the buffer the
/// record encoder leaves behind.
pub proof fn lemma_record_encode_decode(buf0: Seq<u8>, pos: int, m: RecordModel)
    requires
        buf0.len() == BUF_SIZE,
        record_normalized(m),
        0 <= pos,
        pos + record_wire(m).len() <= BUF_SIZE,
    ensures
        parse_record(splice(buf0, pos, record_wire(m)), pos as nat) == Ok::<
            (RecordModel, nat),
            DnsError,
        >((m, (pos + record_wire(m).len()) as nat)),
{
    let buf = splice(buf0, pos, record_wire(m));
    assert(buf.subrange(pos, pos + record_wire(m).len()) =~= record_wire(m));
    lemma_record_round_trip(buf, pos, m);
}

/// Law: a name-server record whose host name stands on the wire as a
/// two-byte compression pointer to an earlier flat encoding of that name
/// decodes to exactly the record that a flat encoding of the host gives:
/// the same domain, host and time to live, with the cursor just past the
/// pointer.  Together with `lemma_record_round_trip` (the flat form) this
/// says the compressed and uncompressed encodings decode to one value.
pub proof fn lemma_compressed_ns_round_trip(
    buf: Seq<u8>,
    pos: int,
    o: nat,
    domain: Seq<char>,
    host: Seq<char>,
    ttl: u32,
)
    requires
        buf.len() == BUF_SIZE,
        name_normalized(domain),
        name_normalized(host),
        o + encode_utf8(host).len() + 2 <= BUF_SIZE,
        buf.subrange(o as int, o as int + encode_utf8(host).len() + 2) == name_wire(
            encode_utf8(host),
        ),
        0 <= pos,
        pos + encode_utf8(domain).len() + 14 <= BUF_SIZE,
        buf.subrange(pos, pos + encode_utf8(domain).len() + 14) == name_wire(encode_utf8(domain))
            + u16_bytes(2) + u16_bytes(1) + u32_bytes(ttl) + u16_bytes(2) + seq![
            (0xC0 + o / 256) as u8,
            (o % 256) as u8,
        ],
    ensures
        parse_record(buf, pos as nat) == Ok::<(RecordModel, nat), DnsError>(
            (
                RecordModel::Ns { domain, host, ttl },
                (pos + encode_utf8(domain).len() + 14) as nat,
            ),
        ),
{
    let db = encode_utf8(domain);
    let dw = name_wire(db);
    lemma_name_wire_len(db);
    let dwl = dw.len() as int;
    let w = dw + u16_bytes(2) + u16_bytes(1) + u32_bytes(ttl) + u16_bytes(2) + seq![
        (0xC0 + o / 256) as u8,
        (o % 256) as u8,
    ];
    assert(w.subrange(0, dwl) =~= dw);
    lemma_sub_wire(buf, pos, w, Seq::empty(), dw);
    assert(buf.subrange(pos, pos + db.len() + 2) == dw) by {
        assert(buf.subrange(pos + Seq::<u8>::empty().len(), pos + Seq::<u8>::empty().len()
            + dw.len()) == dw);
    }
    lemma_parse_name_wire(buf, pos, db, 0);
    assert(w.subrange(dwl, dwl + 2) =~= u16_bytes(2));
    lemma_u16_field(buf, pos, w, dw, 2);
    assert(w.subrange(dwl + 4, dwl + 8) =~= u32_bytes(ttl));
    lemma_u32_field(buf, pos, w, dw + u16_bytes(2) + u16_bytes(1), ttl);
    let p2 = pos + dwl + 10;

    let hb: u8 = (0xC0 + o / 256) as u8;
    let lb: u8 = (o % 256) as u8;
    assert(buf.subrange(pos, pos + w.len())[dwl + 10] == w[dwl + 10]);
    assert(buf.subrange(pos, pos + w.len())[dwl + 11] == w[dwl + 11]);
    assert(w[dwl + 10] == hb && w[dwl + 11] == lb);
    let ghost ov = o as u16;
    assert(hb as u16 == 0xC0 + ov / 256 && lb as u16 == ov % 256);
    assert(hb & 0xC0 == 0xC0 && ((hb ^ 0xC0) as u16) * 256 + lb == ov) by (bit_vector)
        requires
            ov < 512,
            hb as u16 == 0xC0 + ov / 256,
            lb as u16 == ov % 256,
    ;
    assert(pointer_target(buf[p2], buf[p2 + 1]) as nat == o);
    lemma_name_wire_len(encode_utf8(host));
    lemma_parse_name_wire(buf, o as int, encode_utf8(host), 1);
    assert(parse_name(buf, p2 as nat, 0) == Ok::<(Seq<char>, nat), DnsError>(
        (host, (p2 + 2) as nat),
    ));
}

/// Law: compression pointers that only ever lead to further compression
/// pointers can never terminate a name, and decoding fails with
/// `CompressionLoopExceeded` — after at most six jumps, by the shape of
/// `parse_name` itself — instead of looping forever.  `cyc` is any set of
/// offsets, each holding a pointer whose target lies in the set again: a
/// self-loop, a two-cycle, or any longer chain that never leaves the set.
pub proof fn lemma_compression_cycle(buf: Seq<u8>, pos: nat, jumps: nat, cyc: Set<nat>)
    requires
        buf.len() == BUF_SIZE,
        cyc.contains(pos),
        forall|q: nat| #[trigger]
            cyc.contains(q) ==> q + 1 < BUF_SIZE && buf[q as int] & 0xC0 == 0xC0 && cyc.contains(
                pointer_target(buf[q as int], buf[q as int + 1]) as nat,
            ),
    ensures
        parse_name(buf, pos, jumps) == Err::<(Seq<char>, nat), DnsError>(
            DnsError::CompressionLoopExceeded,
        ),
    decreases 6 - jumps,
{
    if jumps > 5 {
    } else {
        let target = pointer_target(buf[pos as int], buf[pos as int + 1]) as nat;
        assert(cyc.contains(target));
        lemma_compression_cycle(buf, target, jumps + 1, cyc);
    }
}

} // verus!
