//! The 12-byte message header: the 16-bit transaction id, two bytes of
//! packed flag bits, and the four 16-bit section counts.
use vstd::prelude::*;

use crate::BUF_SIZE;
use crate::DnsError;
use crate::buffer::PacketBuffer;
use crate::splice;
use crate::u16_of;
use crate::u16_bytes;
use crate::lemma_splice_concat;
use crate::lemma_update_is_splice;
use crate::lemma_splice_frame;
use crate::unchanged_outside;

verus! {

/// The response code carried in the low four bits of the second flag
/// byte.  Values above five decode leniently as `NO_ERR`.
#[allow(non_camel_case_types)]
#[derive(Clone, Copy, Debug, PartialEq, Eq, Structural)]
pub enum ResCode {
    NO_ERR,
    FORM_ERR,
    SERV_FAIL,
    NX_DOMAIN,
    NOT_IMP,
    REFUSED,
}

/// The wire value of a response code.
pub open spec fn res_code_num(rc: ResCode) -> u8 {
    match rc {
        ResCode::NO_ERR => 0,
        ResCode::FORM_ERR => 1,
        ResCode::SERV_FAIL => 2,
        ResCode::NX_DOMAIN => 3,
        ResCode::NOT_IMP => 4,
        ResCode::REFUSED => 5,
    }
}

/// The response code a wire value decodes to: the six named codes, and
/// `NO_ERR` for every other value.
pub open spec fn res_code_of(num: u8) -> ResCode {
    if num == 1 {
        ResCode::FORM_ERR
    } else if num == 2 {
        ResCode::SERV_FAIL
    } else if num == 3 {
        ResCode::NX_DOMAIN
    } else if num == 4 {
        ResCode::NOT_IMP
    } else if num == 5 {
        ResCode::REFUSED
    } else {
        ResCode::NO_ERR
    }
}

impl ResCode {
    /// Decode a wire value; anything above five falls back to `NO_ERR`.
    pub fn from_u8(num: u8) -> (r: ResCode)
        ensures
            r == res_code_of(num),
    {
        match num {
            1 => ResCode::FORM_ERR,
            2 => ResCode::SERV_FAIL,
            3 => ResCode::NX_DOMAIN,
            4 => ResCode::NOT_IMP,
            5 => ResCode::REFUSED,
            _ => ResCode::NO_ERR,
        }
    }

    /// The wire value of this response code.
    pub fn to_u8(&self) -> (r: u8)
        ensures
            r == res_code_num(*self),
    {
        match *self {
            ResCode::NO_ERR => 0,
            ResCode::FORM_ERR => 1,
            ResCode::SERV_FAIL => 2,
            ResCode::NX_DOMAIN => 3,
            ResCode::NOT_IMP => 4,
            ResCode::REFUSED => 5,
        }
    }
}

/// The message header.  The four counts say how many entries each section
/// of the message carries; the message encoder derives them from the
/// section lists rather than trust what a caller left here.
#[derive(Clone, Debug, PartialEq, Eq, Structural)]
#[verifier::ext_equal]
pub struct DnsHeader {
    pub id: u16,
    pub query_res: bool,
    pub opcode: u8,
    pub authoritative: bool,
    pub trunc: bool,
    pub rec_des: bool,
    pub rec_av: bool,
    pub reserved: bool,
    pub auth_data: bool,
    pub checking_disabled: bool,
    pub res_code: ResCode,
    pub ques_count: u16,
    pub ans_count: u16,
    pub auth_count: u16,
    pub res_count: u16,
}

/// A flag bit as the byte 0 or 1.
pub open spec fn bool_bit(b: bool) -> u8 {
    if b {
        1
    } else {
        0
    }
}

/// The first packed flag byte: recursion desired, truncation,
/// authoritative answer, the opcode, and the query/response bit.
pub open spec fn flags_hi(h: DnsHeader) -> u8 {
    bool_bit(h.rec_des) | (bool_bit(h.trunc) << 1) | (bool_bit(h.authoritative) << 2) | (h.opcode
        << 3) | (bool_bit(h.query_res) << 7)
}

/// The second packed flag byte: the response code, checking disabled,
/// authenticated data, the reserved bit, and recursion available.
pub open spec fn flags_lo(h: DnsHeader) -> u8 {
    res_code_num(h.res_code) | (bool_bit(h.checking_disabled) << 4) | (bool_bit(h.auth_data) << 5)
        | (bool_bit(h.reserved) << 6) | (bool_bit(h.rec_av) << 7)
}

/// The twelve wire bytes of a header.
pub open spec fn header_wire(h: DnsHeader) -> Seq<u8> {
    u16_bytes(h.id) + seq![flags_hi(h), flags_lo(h)] + u16_bytes(h.ques_count) + u16_bytes(
        h.ans_count,
    ) + u16_bytes(h.auth_count) + u16_bytes(h.res_count)
}

/// The header twelve wire bytes decode to.
pub open spec fn parse_header(b: Seq<u8>) -> DnsHeader
    recommends
        b.len() == 12,
{
    let hi = b[2];
    let lo = b[3];
    DnsHeader {
        id: u16_of(b[0], b[1]),
        query_res: hi & 0x80 > 0,
        opcode: (hi >> 3) & 0x0F,
        authoritative: hi & 0x04 > 0,
        trunc: hi & 0x02 > 0,
        rec_des: hi & 0x01 > 0,
        rec_av: lo & 0x80 > 0,
        reserved: lo & 0x40 > 0,
        auth_data: lo & 0x20 > 0,
        checking_disabled: lo & 0x10 > 0,
        res_code: res_code_of(lo & 0x0F),
        ques_count: u16_of(b[4], b[5]),
        ans_count: u16_of(b[6], b[7]),
        auth_count: u16_of(b[8], b[9]),
        res_count: u16_of(b[10], b[11]),
    }
}

/// The header a fresh message starts from: a response with a fixed
/// placeholder id, every flag clear and every count zero.
pub open spec fn default_header() -> DnsHeader {
    DnsHeader {
        id: 1234,
        query_res: true,
        opcode: 0,
        authoritative: false,
        trunc: false,
        rec_des: false,
        rec_av: false,
        reserved: false,
        auth_data: false,
        checking_disabled: false,
        res_code: ResCode::NO_ERR,
        ques_count: 0,
        ans_count: 0,
        auth_count: 0,
        res_count: 0,
    }
}

impl DnsHeader {
    /// A response header with a fixed placeholder id, every flag clear and
    /// every count zero.
    pub fn new() -> (r: DnsHeader)
        ensures
            r == default_header(),
    {
        DnsHeader {
            id: 1234,
            query_res: true,
            opcode: 0,
            authoritative: false,
            trunc: false,
            rec_des: false,
            rec_av: false,
            reserved: false,
            auth_data: false,
            checking_disabled: false,
            res_code: ResCode::NO_ERR,
            ques_count: 0,
            ans_count: 0,
            auth_count: 0,
            res_count: 0,
        }
    }

    /// Decode the twelve header bytes under the buffer's cursor into this
    /// header, leaving the cursor just past them.
    pub fn read(&mut self, buf: &mut PacketBuffer) -> (r: Result<(), DnsError>)
        ensures
            final(buf).buf@ == old(buf).buf@,
            old(buf).pos <= final(buf).pos <= old(buf).pos + 12,
            match r {
                Ok(()) => old(buf).pos + 12 <= BUF_SIZE
                    && final(buf).pos == old(buf).pos + 12
                    && *final(self) == parse_header(
                        old(buf).buf@.subrange(old(buf).pos as int, old(buf).pos + 12),
                    ),
                Err(e) => e == DnsError::OutOfBounds && old(buf).pos + 12 > BUF_SIZE,
            },
    {
        self.id = buf.read_u16()?;
        let tags = buf.read_u16()?;
        let tags_first_byte = (tags / 256) as u8;
        let tags_second_byte = (tags % 256) as u8;

        self.query_res = (tags_first_byte & 0x80) > 0;
        self.opcode = (tags_first_byte >> 3) & 0x0F;
        self.authoritative = (tags_first_byte & 0x04) > 0;
        self.trunc = (tags_first_byte & 0x02) > 0;
        self.rec_des = (tags_first_byte & 0x01) > 0;
        self.rec_av = (tags_second_byte & 0x80) > 0;
        self.reserved = (tags_second_byte & 0x40) > 0;
        self.auth_data = (tags_second_byte & 0x20) > 0;
        self.checking_disabled = (tags_second_byte & 0x10) > 0;
        self.res_code = ResCode::from_u8(tags_second_byte & 0x0F);

        self.ques_count = buf.read_u16()?;
        self.ans_count = buf.read_u16()?;
        self.auth_count = buf.read_u16()?;
        self.res_count = buf.read_u16()?;

        proof {
            let b = old(buf).buf@.subrange(old(buf).pos as int, old(buf).pos + 12);
            assert(u16_of(b[2], b[3]) / 256 == b[2] && u16_of(b[2], b[3]) % 256 == b[3]);
            assert(*self =~= parse_header(b));
        }
        Ok(())
    }

    /// Encode this header as its twelve wire bytes at the buffer's cursor.
    #[verifier::rlimit(100)]
    pub fn write(&self, buf: &mut PacketBuffer) -> (r: Result<(), DnsError>)
        ensures
            match r {
                Ok(()) => old(buf).pos + 12 <= BUF_SIZE
                    && final(buf).buf@ == splice(old(buf).buf@, old(buf).pos as int, header_wire(*self))
                    && final(buf).pos == old(buf).pos + 12,
                Err(e) => e == DnsError::OutOfBounds && old(buf).pos + 12 > BUF_SIZE
                    && final(buf).pos >= old(buf).pos
                    && unchanged_outside(
                    old(buf).buf@,
                    final(buf).buf@,
                    old(buf).pos as int,
                    final(buf).pos as int,
                ),
            },
    {
        let ghost buf0 = buf.buf@;
        let ghost pos0 = buf.pos as int;
        buf.write_u16(self.id)?;
        let ghost w1 = u16_bytes(self.id);
        proof {
            lemma_splice_frame(buf0, pos0, w1);
        }

        let rd: u8 = if self.rec_des { 1 } else { 0 };
        let tc: u8 = if self.trunc { 1 } else { 0 };
        let aa: u8 = if self.authoritative { 1 } else { 0 };
        let qr: u8 = if self.query_res { 1 } else { 0 };
        buf.write_u8(rd | (tc << 1) | (aa << 2) | (self.opcode << 3) | (qr << 7))?;
        proof {
            lemma_update_is_splice(splice(buf0, pos0, w1), pos0 + 2, flags_hi(*self));
            lemma_splice_concat(buf0, pos0, w1, seq![flags_hi(*self)]);
            lemma_splice_frame(buf0, pos0, w1 + seq![flags_hi(*self)]);
        }
        let ghost w2 = w1 + seq![flags_hi(*self)];

        let cd: u8 = if self.checking_disabled { 1 } else { 0 };
        let ad: u8 = if self.auth_data { 1 } else { 0 };
        let rz: u8 = if self.reserved { 1 } else { 0 };
        let ra: u8 = if self.rec_av { 1 } else { 0 };
        buf.write_u8(self.res_code.to_u8() | (cd << 4) | (ad << 5) | (rz << 6) | (ra << 7))?;
        proof {
            lemma_update_is_splice(splice(buf0, pos0, w2), pos0 + 3, flags_lo(*self));
            lemma_splice_concat(buf0, pos0, w2, seq![flags_lo(*self)]);
            lemma_splice_frame(buf0, pos0, w2 + seq![flags_lo(*self)]);
        }
        let ghost w3 = w2 + seq![flags_lo(*self)];

        buf.write_u16(self.ques_count)?;
        proof {
            lemma_splice_concat(buf0, pos0, w3, u16_bytes(self.ques_count));
            lemma_splice_frame(buf0, pos0, w3 + u16_bytes(self.ques_count));
        }
        let ghost w4 = w3 + u16_bytes(self.ques_count);
        buf.write_u16(self.ans_count)?;
        proof {
            lemma_splice_concat(buf0, pos0, w4, u16_bytes(self.ans_count));
            lemma_splice_frame(buf0, pos0, w4 + u16_bytes(self.ans_count));
        }
        let ghost w5 = w4 + u16_bytes(self.ans_count);
        buf.write_u16(self.auth_count)?;
        proof {
            lemma_splice_concat(buf0, pos0, w5, u16_bytes(self.auth_count));
            lemma_splice_frame(buf0, pos0, w5 + u16_bytes(self.auth_count));
        }
        let ghost w6 = w5 + u16_bytes(self.auth_count);
        buf.write_u16(self.res_count)?;
        proof {
            lemma_splice_concat(buf0, pos0, w6, u16_bytes(self.res_count));
            assert(w6 + u16_bytes(self.res_count) =~= header_wire(*self));
        }
        Ok(())
    }
}

/// Decoding the twelve bytes a header encodes to yields the header back,
/// field for field, for every header whose opcode fits its four bits.
pub proof fn lemma_header_round_trip(h: DnsHeader)
    requires
        h.opcode < 16,
    ensures
        parse_header(header_wire(h)) == h,
{
    let hi = flags_hi(h);
    let lo = flags_lo(h);
    let rd = bool_bit(h.rec_des);
    let tc = bool_bit(h.trunc);
    let aa = bool_bit(h.authoritative);
    let qr = bool_bit(h.query_res);
    let op = h.opcode;
    assert((hi & 0x80 > 0) == (qr == 1) && ((hi >> 3) & 0x0F) == op && (hi & 0x04 > 0) == (aa == 1)
        && (hi & 0x02 > 0) == (tc == 1) && (hi & 0x01 > 0) == (rd == 1)) by (bit_vector)
        requires
            hi == rd | (tc << 1) | (aa << 2) | (op << 3) | (qr << 7),
            rd <= 1 && tc <= 1 && aa <= 1 && qr <= 1 && op < 16,
    ;
    let rc = res_code_num(h.res_code);
    let cd = bool_bit(h.checking_disabled);
    let ad = bool_bit(h.auth_data);
    let rz = bool_bit(h.reserved);
    let ra = bool_bit(h.rec_av);
    assert((lo & 0x80 > 0) == (ra == 1) && (lo & 0x40 > 0) == (rz == 1) && (lo & 0x20 > 0) == (ad
        == 1) && (lo & 0x10 > 0) == (cd == 1) && (lo & 0x0F) == rc) by (bit_vector)
        requires
            lo == rc | (cd << 4) | (ad << 5) | (rz << 6) | (ra << 7),
            cd <= 1 && ad <= 1 && rz <= 1 && ra <= 1 && rc <= 5,
    ;
    crate::lemma_u16_round_trip(h.id);
    crate::lemma_u16_round_trip(h.ques_count);
    crate::lemma_u16_round_trip(h.ans_count);
    crate::lemma_u16_round_trip(h.auth_count);
    crate::lemma_u16_round_trip(h.res_count);
    assert(parse_header(header_wire(h)) =~= h);
}

} // verus!
