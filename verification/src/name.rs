//! The domain-name codec: length-prefixed labels terminated by a zero
//! byte, with the two-top-bits-set compression pointer scheme on the read
//! side and a jump counter that bounds pointer chases.
//!
//! The wire form and the decoder are both given as spec functions over the
//! byte sequence (`name_wire`, `parse_name`); the executable methods on
//! `PacketBuffer` are proved to match them exactly.
use vstd::prelude::*;

use crate::BUF_SIZE;
use crate::DnsError;
use crate::buffer::PacketBuffer;
use crate::splice;
use crate::lemma_splice_concat;
use crate::lemma_update_is_splice;
use crate::lemma_splice_frame;
use crate::lemma_unchanged_outside_trans;
use crate::unchanged_outside;
use vstd::string::StringSliceAdditionalSpecFns;

verus! {

/// The byte that separates labels in a domain name's text form.
pub const LABEL_SEP: u8 = 0x2E;

/// Longest label the wire format can carry: the length byte keeps its top
/// two bits for compression pointers.
pub const MAX_LABEL_LEN: usize = 63;

/// Most compression-pointer jumps tolerated while decoding one name.
pub const MAX_JUMPS: u8 = 5;

/// Offset of the first separator byte in `s`, or `s.len()` if none.
pub open spec fn first_sep(s: Seq<u8>) -> int
    decreases s.len(),
{
    if s.len() == 0 {
        0
    } else if s[0] == LABEL_SEP {
        0
    } else {
        1 + first_sep(s.skip(1))
    }
}

/// The first separator offset lies in `[0, s.len()]`, no separator comes
/// before it, and it holds a separator unless it is the whole length.
pub proof fn lemma_first_sep(s: Seq<u8>)
    ensures
        0 <= first_sep(s) <= s.len(),
        forall|i: int| 0 <= i < first_sep(s) ==> s[i] != LABEL_SEP,
        first_sep(s) < s.len() ==> s[first_sep(s)] == LABEL_SEP,
    decreases s.len(),
{
    if s.len() == 0 || s[0] == LABEL_SEP {
    } else {
        lemma_first_sep(s.skip(1));
        assert forall|i: int| 0 <= i < first_sep(s) implies s[i] != LABEL_SEP by {
            if i > 0 {
                assert(s.skip(1)[i - 1] != LABEL_SEP);
            }
        }
        if first_sep(s) < s.len() {
            assert(s.skip(1)[first_sep(s) - 1] == LABEL_SEP);
        }
    }
}

/// An offset with no separator before it, and a separator (or the end of
/// the bytes) at it, is the first separator offset.
pub proof fn lemma_first_sep_is(s: Seq<u8>, j: int)
    requires
        0 <= j <= s.len(),
        forall|i: int| 0 <= i < j ==> s[i] != LABEL_SEP,
        j < s.len() ==> s[j] == LABEL_SEP,
    ensures
        first_sep(s) == j,
    decreases s.len(),
{
    if s.len() == 0 {
    } else if s[0] == LABEL_SEP {
    } else {
        assert(forall|i: int| 0 <= i < j - 1 ==> s.skip(1)[i] == s[i + 1]);
        if j < s.len() {
            assert(s.skip(1)[j - 1] == s[j]);
        }
        lemma_first_sep_is(s.skip(1), j - 1);
    }
}

#[via_fn]
proof fn labels_ok_decreases(s: Seq<u8>) {
    lemma_first_sep(s);
}

#[via_fn]
proof fn valid_name_bytes_decreases(s: Seq<u8>) {
    lemma_first_sep(s);
}

#[via_fn]
proof fn name_wire_decreases(s: Seq<u8>) {
    lemma_first_sep(s);
}

#[via_fn]
proof fn partial_name_wire_decreases(s: Seq<u8>) {
    lemma_first_sep(s);
}

/// Every label of the name bytes `s` (a maximal separator-free run) is at
/// most 63 bytes long: the encoder accepts exactly these names.
pub open spec fn labels_ok(s: Seq<u8>) -> bool
    decreases s.len() via labels_ok_decreases
{
    let j = first_sep(s);
    j <= MAX_LABEL_LEN && (j < s.len() ==> labels_ok(s.skip(j + 1)))
}

/// Every label of the name bytes `s` is between 1 and 63 bytes long.
/// Only such names survive a round trip: a name with an empty label
/// encodes to a zero length byte in the middle, where a decoder stops.
pub open spec fn valid_name_bytes(s: Seq<u8>) -> bool
    decreases s.len() via valid_name_bytes_decreases
{
    let j = first_sep(s);
    1 <= j <= MAX_LABEL_LEN && (j < s.len() ==> valid_name_bytes(s.skip(j + 1)))
}

/// The wire encoding of the name bytes `s`: each label as a length byte
/// followed by its bytes, then a terminating zero byte.  Meaningful when
/// `labels_ok(s)` holds; the encoder refuses other names.
pub open spec fn name_wire(s: Seq<u8>) -> Seq<u8>
    decreases s.len() via name_wire_decreases
{
    let j = first_sep(s);
    if j == s.len() {
        seq![j as u8] + s + seq![0u8]
    } else {
        seq![j as u8] + s.take(j) + name_wire(s.skip(j + 1))
    }
}

/// The bytes the name encoder emits before it stops: the whole wire form
/// when every label fits its length byte, and otherwise the wire bytes of
/// the labels before the first overlong one — neither any byte of the
/// overlong label nor the terminating zero byte is emitted.
pub open spec fn partial_name_wire(s: Seq<u8>) -> Seq<u8>
    decreases s.len() via partial_name_wire_decreases
{
    let j = first_sep(s);
    if j > MAX_LABEL_LEN {
        Seq::empty()
    } else if j == s.len() {
        seq![j as u8] + s + seq![0u8]
    } else {
        seq![j as u8] + s.take(j) + partial_name_wire(s.skip(j + 1))
    }
}

/// The wire encoding of a name is exactly two bytes longer than the name:
/// one length byte per label against one separator between labels, plus
/// the first length byte and the terminating zero byte.
pub proof fn lemma_name_wire_len(s: Seq<u8>)
    ensures
        name_wire(s).len() == s.len() + 2,
    decreases s.len(),
{
    lemma_first_sep(s);
    let j = first_sep(s);
    if j < s.len() {
        lemma_name_wire_len(s.skip(j + 1));
    }
}

/// ASCII-lowercase a byte.
pub open spec fn lower_byte(b: u8) -> u8 {
    if 0x41 <= b <= 0x5A {
        (b + 0x20) as u8
    } else {
        b
    }
}

/// The character a decoded name byte turns into: ASCII-lowercased, then
/// taken as a character of the same value.
pub open spec fn byte_char(b: u8) -> char {
    lower_byte(b) as char
}

/// The characters a run of decoded name bytes turns into.
pub open spec fn name_chars(s: Seq<u8>) -> Seq<char> {
    Seq::new(s.len(), |i: int| byte_char(s[i]))
}

/// `nm` glued onto already-decoded text: a separator goes in between
/// exactly when a label was decoded before and `nm` is not empty.
pub open spec fn joined(need_sep: bool, nm: Seq<char>) -> Seq<char> {
    if need_sep && nm.len() > 0 {
        seq!['.'] + nm
    } else {
        nm
    }
}

/// The absolute offset a compression pointer names: the low six bits of
/// the length byte and all of the following byte.
pub open spec fn pointer_target(len: u8, b2: u8) -> u16 {
    (((len ^ 0xC0) as u16) * 256 + b2) as u16
}

/// What decoding a name at offset `pos` of `buf` yields, with `jumps`
/// pointer jumps already taken: the decoded characters and the offset the
/// buffer cursor ends at (just past the terminating zero byte if no jump
/// was taken, just past the first pointer otherwise), or the error.
///
/// More than five jumps fail with `CompressionLoopExceeded`; any byte
/// touched outside the buffer fails with `OutOfBounds`, and a label whose
/// bytes would end at or past the last buffer offset is refused with it
/// too — whatever would follow such a label (a length byte, a pointer or
/// the terminating zero) would lie out of bounds anyway.
pub open spec fn parse_name(buf: Seq<u8>, pos: nat, jumps: nat) -> Result<
    (Seq<char>, nat),
    DnsError,
>
    decreases 6 - jumps, BUF_SIZE - pos,
{
    if jumps > MAX_JUMPS {
        Err(DnsError::CompressionLoopExceeded)
    } else if pos >= BUF_SIZE {
        Err(DnsError::OutOfBounds)
    } else {
        let len = buf[pos as int];
        if len & 0xC0 == 0xC0 {
            if pos + 1 >= BUF_SIZE {
                Err(DnsError::OutOfBounds)
            } else {
                let target = pointer_target(len, buf[pos + 1 as int]) as nat;
                if target >= BUF_SIZE {
                    Err(DnsError::OutOfBounds)
                } else {
                    match parse_name(buf, target, jumps + 1) {
                        Ok(p) => Ok((p.0, pos + 2)),
                        Err(e) => Err(e),
                    }
                }
            }
        } else if len == 0 {
            Ok((Seq::empty(), pos + 1))
        } else {
            if pos + 1 + len >= BUF_SIZE {
                Err(DnsError::OutOfBounds)
            } else {
                let label = buf.subrange(pos as int + 1, pos as int + 1 + len);
                match parse_name(buf, (pos + 1 + len) as nat, jumps) {
                    Ok(p) => Ok((name_chars(label) + joined(true, p.0), p.1)),
                    Err(e) => Err(e),
                }
            }
        }
    }
}

/// Relies on String::push: appends exactly one character at the end.
#[verifier::external_body]
fn push_char(s: &mut String, c: char)
    ensures
        final(s)@ == old(s)@.push(c),
{
    s.push(c);
}

/// The scan behind `read_qname`: decodes the labels starting at absolute
/// offset `pos`, appending their lowercased text to `outstr`, and returns
/// the offset the buffer cursor must end at.
fn name_scan(
    buf: &[u8; BUF_SIZE],
    pos: usize,
    jumps: u8,
    outstr: &mut String,
    need_sep: bool,
) -> (r: Result<usize, DnsError>)
    ensures
        match r {
            Ok(cur) => {
                let p = parse_name(buf@, pos as nat, jumps as nat);
                &&& p is Ok
                &&& cur == p->Ok_0.1
                &&& cur > pos
                &&& final(outstr)@ == old(outstr)@ + joined(need_sep, p->Ok_0.0)
            },
            Err(e) => parse_name(buf@, pos as nat, jumps as nat) == Err::<(Seq<char>, nat), DnsError>(e)
                && old(outstr)@.is_prefix_of(final(outstr)@),
        },
    decreases 6 - jumps, BUF_SIZE - pos,
{
    if jumps > MAX_JUMPS {
        return Err(DnsError::CompressionLoopExceeded);
    }
    if pos >= BUF_SIZE {
        return Err(DnsError::OutOfBounds);
    }
    let len = buf[pos];
    if len & 0xC0 == 0xC0 {
        if pos + 1 >= BUF_SIZE {
            return Err(DnsError::OutOfBounds);
        }
        let b2 = buf[pos + 1];
        let target = ((len ^ 0xC0) as usize) * 256 + (b2 as usize);
        if target >= BUF_SIZE {
            return Err(DnsError::OutOfBounds);
        }
        let _inner_end = name_scan(buf, target, jumps + 1, outstr, need_sep)?;
        Ok(pos + 2)
    } else if len == 0 {
        Ok(pos + 1)
    } else {
        if pos + 1 + (len as usize) >= BUF_SIZE {
            return Err(DnsError::OutOfBounds);
        }
        let ghost entry = outstr@;
        if need_sep {
            push_char(outstr, '.');
        }
        let end = pos + 1 + (len as usize);
        let mut i = pos + 1;
        while i < end
            invariant
                pos + 1 <= i <= end,
                end == pos + 1 + len,
                end < BUF_SIZE,
                outstr@ == entry + (if need_sep { seq!['.'] } else { Seq::<char>::empty() })
                    + name_chars(buf@.subrange(pos + 1, i as int)),
            decreases end - i,
        {
            let b = buf[i];
            let lb = if 0x41 <= b && b <= 0x5A {
                b + 0x20
            } else {
                b
            };
            push_char(outstr, lb as char);
            proof {
                assert(outstr@ == entry + (if need_sep { seq!['.'] } else { Seq::<char>::empty() })
                    + name_chars(buf@.subrange(pos + 1, i + 1))) by {
                    assert(name_chars(buf@.subrange(pos + 1, i + 1)) =~= name_chars(
                        buf@.subrange(pos + 1, i as int),
                    ).push(byte_char(buf@[i as int])));
                    assert(outstr@ =~= entry + (if need_sep { seq!['.'] } else { Seq::<char>::empty() })
                        + name_chars(buf@.subrange(pos + 1, i as int)).push(byte_char(buf@[i as int])));
                }
            }
            i += 1;
        }
        let ghost mid = outstr@;
        match name_scan(buf, end, jumps, outstr, true) {
            Ok(cur) => {
                proof {
                    let label = buf@.subrange(pos + 1, pos + 1 + len);
                    let rest = parse_name(buf@, end as nat, jumps as nat)->Ok_0.0;
                    let total = name_chars(label) + joined(true, rest);
                    assert(total.len() > 0);
                    assert(outstr@ =~= old(outstr)@ + joined(need_sep, total));
                }
                Ok(cur)
            },
            Err(e) => {
                proof {
                    let o = old(outstr)@;
                    assert forall|k: int| 0 <= k < o.len() implies outstr@[k] == o[k] by {
                        assert(mid[k] == o[k]);
                        assert(mid.subrange(0, mid.len() as int)[k] == outstr@.subrange(
                            0,
                            mid.len() as int,
                        )[k]);
                    }
                    assert(o =~= outstr@.subrange(0, o.len() as int));
                }
                Err(e)
            },
        }
    }
}

impl PacketBuffer {
    /// Decode the domain name under the cursor, appending its lowercased
    /// dot-separated text to `outstr`.  On success the cursor is left just
    /// past the name: past the terminating zero byte when no compression
    /// pointer occurred, past the first pointer otherwise.  On failure the
    /// cursor is left where it was, and `outstr` keeps what it held, possibly
    /// with a partial name appended after it.
    pub fn read_qname(&mut self, outstr: &mut String) -> (r: Result<(), DnsError>)
        ensures
            final(self).buf@ == old(self).buf@,
            match r {
                Ok(()) => {
                    let p = parse_name(old(self).buf@, old(self).pos as nat, 0);
                    &&& p is Ok
                    &&& final(self).pos == p->Ok_0.1
                    &&& final(self).pos > old(self).pos
                    &&& final(outstr)@ == old(outstr)@ + p->Ok_0.0
                },
                Err(e) => parse_name(old(self).buf@, old(self).pos as nat, 0) == Err::<
                    (Seq<char>, nat),
                    DnsError,
                >(e) && final(self).pos == old(self).pos
                    && old(outstr)@.is_prefix_of(final(outstr)@),
            },
    {
        match name_scan(&self.buf, self.pos, 0, outstr, false) {
            Ok(cur) => {
                self.pos = cur;
                Ok(())
            },
            Err(e) => Err(e),
        }
    }

    /// Writes the labels of `bytes` from offset `start` on: each label as
    /// a length byte followed by its bytes, then the terminating zero.
    fn write_labels(&mut self, bytes: &[u8], start: usize) -> (r: Result<(), DnsError>)
        requires
            start <= bytes@.len(),
        ensures
            ({
                let s = bytes@.skip(start as int);
                match r {
                    Ok(()) => labels_ok(s)
                        && old(self).pos + s.len() + 2 <= BUF_SIZE
                        && final(self).buf@ == splice(old(self).buf@, old(self).pos as int, name_wire(s))
                        && final(self).pos == old(self).pos + s.len() + 2,
                    Err(e) => {
                        &&& !(labels_ok(s) && old(self).pos + s.len() + 2 <= BUF_SIZE)
                        &&& (e == DnsError::LabelTooLong || e == DnsError::OutOfBounds)
                        &&& (e == DnsError::OutOfBounds ==> old(self).pos + s.len() + 2 > BUF_SIZE)
                        &&& (e == DnsError::LabelTooLong ==> !labels_ok(s)
                            && final(self).buf@ == splice(
                            old(self).buf@,
                            old(self).pos as int,
                            partial_name_wire(s),
                        )
                            && final(self).pos == old(self).pos + partial_name_wire(s).len()
                            && (final(self).pos <= BUF_SIZE || partial_name_wire(s).len() == 0))
                        &&& final(self).pos >= old(self).pos
                        &&& unchanged_outside(
                            old(self).buf@,
                            final(self).buf@,
                            old(self).pos as int,
                            final(self).pos as int,
                        )
                    },
                }
            }),
        decreases bytes@.len() - start,
    {
        let ghost s = bytes@.skip(start as int);
        let n = bytes.len();
        let mut end = start;
        while end < n && bytes[end] != LABEL_SEP
            invariant
                start <= end <= n,
                n == bytes@.len(),
                forall|k: int| start <= k < end ==> bytes@[k] != LABEL_SEP,
            decreases n - end,
        {
            end += 1;
        }
        proof {
            assert(forall|i: int| 0 <= i < end - start ==> s[i] == bytes@[start + i]);
            lemma_first_sep_is(s, end - start);
            lemma_name_wire_len(s);
            if end < n {
                assert(s.skip(end - start + 1) =~= bytes@.skip(end + 1));
                lemma_name_wire_len(bytes@.skip(end + 1));
            }
        }
        let label_len = end - start;
        if label_len > MAX_LABEL_LEN {
            proof {
                assert(partial_name_wire(s) =~= Seq::<u8>::empty());
                assert(splice(self.buf@, self.pos as int, Seq::<u8>::empty()) =~= self.buf@);
            }
            return Err(DnsError::LabelTooLong);
        }
        let ghost buf0 = self.buf@;
        let ghost pos0 = self.pos as int;
        self.write_u8(label_len as u8)?;
        proof {
            lemma_update_is_splice(buf0, pos0, label_len as u8);
            assert(seq![label_len as u8] + bytes@.subrange(start as int, start as int)
                =~= seq![label_len as u8]);
        }
        let mut i = start;
        while i < end
            invariant
                start <= i <= end <= n,
                n == bytes@.len(),
                end - start <= MAX_LABEL_LEN,
                s == bytes@.skip(start as int),
                first_sep(s) == end - start,
                name_wire(s).len() == s.len() + 2,
                end < n ==> name_wire(bytes@.skip(end + 1)).len() == n - end + 1,
                pos0 == old(self).pos,
                buf0 == old(self).buf@,
                pos0 < BUF_SIZE,
                self.pos == pos0 + 1 + (i - start),
                self.pos <= BUF_SIZE,
                self.buf@ == splice(buf0, pos0, seq![(end - start) as u8]
                    + bytes@.subrange(start as int, i as int)),
            decreases end - i,
        {
            let ghost written = seq![(end - start) as u8] + bytes@.subrange(start as int, i as int);
            let ghost buf_before = self.buf@;
            proof {
                lemma_splice_frame(buf0, pos0, written);
            }
            self.write_u8(bytes[i])?;
            proof {
                lemma_update_is_splice(buf_before, pos0 + written.len(), bytes@[i as int]);
                lemma_splice_concat(buf0, pos0, written, seq![bytes@[i as int]]);
                assert(written + seq![bytes@[i as int]]
                    =~= seq![(end - start) as u8] + bytes@.subrange(start as int, i + 1));
            }
            i += 1;
        }
        if end == n {
            proof {
                lemma_splice_frame(
                    buf0,
                    pos0,
                    seq![(end - start) as u8] + bytes@.subrange(start as int, end as int),
                );
            }
            self.write_u8(0)?;
            proof {
                let written = seq![(end - start) as u8] + bytes@.subrange(start as int, end as int);
                lemma_update_is_splice(splice(buf0, pos0, written), pos0 + written.len(), 0u8);
                lemma_splice_concat(buf0, pos0, written, seq![0u8]);
                assert(s =~= bytes@.subrange(start as int, end as int));
                assert(written + seq![0u8] =~= name_wire(s));
            }
            Ok(())
        } else {
            let ghost mid_buf = self.buf@;
            let ghost mid_pos = self.pos as int;
            let ghost written = seq![(end - start) as u8] + bytes@.subrange(start as int, end as int);
            match self.write_labels(bytes, end + 1) {
                Ok(()) => {
                    proof {
                        let rest = bytes@.skip(end + 1);
                        assert(s.skip(end - start + 1) =~= rest);
                        assert(s.take(end - start) =~= bytes@.subrange(start as int, end as int));
                        lemma_splice_concat(buf0, pos0, written, name_wire(rest));
                        assert(written + name_wire(rest) =~= name_wire(s));
                    }
                    Ok(())
                },
                Err(e) => {
                    proof {
                        let rest = bytes@.skip(end + 1);
                        assert(s.skip(end - start + 1) =~= rest);
                        lemma_splice_frame(buf0, pos0, written);
                        lemma_unchanged_outside_trans(
                            buf0,
                            mid_buf,
                            self.buf@,
                            pos0,
                            mid_pos,
                            self.pos as int,
                        );
                        if e == DnsError::LabelTooLong {
                            assert(s.take(end - start) =~= bytes@.subrange(start as int, end as int));
                            lemma_splice_concat(buf0, pos0, written, partial_name_wire(rest));
                            assert(written + partial_name_wire(rest) =~= partial_name_wire(s));
                        }
                    }
                    Err(e)
                },
            }
        }
    }

    /// Encode a domain name at the cursor as its label sequence: the text
    /// is split on the separator, each label goes out as a length byte
    /// followed by its bytes, and a zero byte terminates the name.  This
    /// encoder never emits compression pointers.  A label longer than 63
    /// bytes is refused with `LabelTooLong`, with exactly the labels
    /// before it written and neither the overlong label nor the
    /// terminating zero emitted; a name whose encoding would run past the
    /// buffer fails with `OutOfBounds`.  On any failure the cursor only
    /// ever moves forward and no byte outside the written range changes.
    pub fn write_qname(&mut self, qname: &str) -> (r: Result<(), DnsError>)
        ensures
            ({
                let s = qname.spec_bytes();
                match r {
                    Ok(()) => labels_ok(s)
                        && old(self).pos + s.len() + 2 <= BUF_SIZE
                        && final(self).buf@ == splice(old(self).buf@, old(self).pos as int, name_wire(s))
                        && final(self).pos == old(self).pos + s.len() + 2,
                    Err(e) => {
                        &&& !(labels_ok(s) && old(self).pos + s.len() + 2 <= BUF_SIZE)
                        &&& (e == DnsError::LabelTooLong || e == DnsError::OutOfBounds)
                        &&& (e == DnsError::OutOfBounds ==> old(self).pos + s.len() + 2 > BUF_SIZE)
                        &&& (e == DnsError::LabelTooLong ==> !labels_ok(s)
                            && final(self).buf@ == splice(
                            old(self).buf@,
                            old(self).pos as int,
                            partial_name_wire(s),
                        )
                            && final(self).pos == old(self).pos + partial_name_wire(s).len()
                            && (final(self).pos <= BUF_SIZE || partial_name_wire(s).len() == 0))
                        &&& final(self).pos >= old(self).pos
                        &&& unchanged_outside(
                            old(self).buf@,
                            final(self).buf@,
                            old(self).pos as int,
                            final(self).pos as int,
                        )
                    },
                }
            }),
    {
        let bytes = qname.as_bytes();
        proof {
            assert(bytes@.skip(0) =~= qname.spec_bytes());
        }
        self.write_labels(bytes, 0)
    }
}

} // verus!
