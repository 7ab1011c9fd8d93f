//! The whole message: header, question list and the three resource-record
//! lists, decoded count-driven in wire order and encoded with the counts
//! freshly derived from the list lengths.
use vstd::prelude::*;

use crate::BUF_SIZE;
use crate::DnsError;
use crate::buffer::PacketBuffer;
use crate::header::DnsHeader;
use crate::header::default_header;
use crate::header::header_wire;
use crate::header::parse_header;
use crate::name::labels_ok;
use crate::record::DnsQuestion;
use crate::record::DnsRecord;
use crate::record::QueryType;
use crate::record::QuestionModel;
use crate::record::RecordModel;
use crate::record::parse_question;
use crate::record::parse_record;
use crate::record::question_wire;
use crate::record::record_ok;
use crate::record::record_wire;
use crate::splice;
use crate::lemma_splice_concat;
use crate::unchanged_outside;
use vstd::utf8::encode_utf8;

verus! {

/// A whole message: one header, the questions, and the answer, authority
/// and additional-resource record lists.
#[derive(Clone, Debug)]
pub struct DnsPacket {
    pub header: DnsHeader,
    pub questions: Vec<DnsQuestion>,
    pub answers: Vec<DnsRecord>,
    pub authorities: Vec<DnsRecord>,
    pub resources: Vec<DnsRecord>,
}

/// The mathematical value of a message.
#[verifier::ext_equal]
pub struct PacketModel {
    pub header: DnsHeader,
    pub questions: Seq<QuestionModel>,
    pub answers: Seq<RecordModel>,
    pub authorities: Seq<RecordModel>,
    pub resources: Seq<RecordModel>,
}

impl View for DnsPacket {
    type V = PacketModel;

    open spec fn view(&self) -> PacketModel {
        PacketModel {
            header: self.header,
            questions: self.questions@.map_values(|q: DnsQuestion| q@),
            answers: self.answers@.map_values(|rec: DnsRecord| rec@),
            authorities: self.authorities@.map_values(|rec: DnsRecord| rec@),
            resources: self.resources@.map_values(|rec: DnsRecord| rec@),
        }
    }
}

/// What decoding `n` questions in a row from offset `pos` yields: their
/// models in order and the offset just past the last one.
pub open spec fn parse_questions(buf: Seq<u8>, pos: nat, n: nat) -> Result<
    (Seq<QuestionModel>, nat),
    DnsError,
>
    decreases n,
{
    if n == 0 {
        Ok((Seq::empty(), pos))
    } else {
        match parse_question(buf, pos) {
            Ok(p) => match parse_questions(buf, p.1, (n - 1) as nat) {
                Ok(rest) => Ok((seq![p.0] + rest.0, rest.1)),
                Err(e) => Err(e),
            },
            Err(e) => Err(e),
        }
    }
}

/// What decoding `n` resource records in a row from offset `pos` yields.
pub open spec fn parse_records(buf: Seq<u8>, pos: nat, n: nat) -> Result<
    (Seq<RecordModel>, nat),
    DnsError,
>
    decreases n,
{
    if n == 0 {
        Ok((Seq::empty(), pos))
    } else {
        match parse_record(buf, pos) {
            Ok(p) => match parse_records(buf, p.1, (n - 1) as nat) {
                Ok(rest) => Ok((seq![p.0] + rest.0, rest.1)),
                Err(e) => Err(e),
            },
            Err(e) => Err(e),
        }
    }
}

/// What decoding a whole message from offset `pos` yields: the header,
/// then exactly as many questions and records of each section as the
/// header counts say, in wire order.
pub open spec fn parse_packet(buf: Seq<u8>, pos: nat) -> Result<(PacketModel, nat), DnsError> {
    if pos + 12 > BUF_SIZE {
        Err(DnsError::OutOfBounds)
    } else {
        let h = parse_header(buf.subrange(pos as int, pos as int + 12));
        match parse_questions(buf, (pos + 12) as nat, h.ques_count as nat) {
            Ok(q) => match parse_records(buf, q.1, h.ans_count as nat) {
                Ok(an) => match parse_records(buf, an.1, h.auth_count as nat) {
                    Ok(au) => match parse_records(buf, au.1, h.res_count as nat) {
                        Ok(re) => Ok(
                            (
                                PacketModel {
                                    header: h,
                                    questions: q.0,
                                    answers: an.0,
                                    authorities: au.0,
                                    resources: re.0,
                                },
                                re.1,
                            ),
                        ),
                        Err(e) => Err(e),
                    },
                    Err(e) => Err(e),
                },
                Err(e) => Err(e),
            },
            Err(e) => Err(e),
        }
    }
}

/// The wire bytes of a question list, in order.
pub open spec fn questions_wire(qs: Seq<QuestionModel>) -> Seq<u8>
    decreases qs.len(),
{
    if qs.len() == 0 {
        Seq::empty()
    } else {
        question_wire(qs[0]) + questions_wire(qs.drop_first())
    }
}

/// The wire bytes of a record list, in order.
pub open spec fn records_wire(rs: Seq<RecordModel>) -> Seq<u8>
    decreases rs.len(),
{
    if rs.len() == 0 {
        Seq::empty()
    } else {
        record_wire(rs[0]) + records_wire(rs.drop_first())
    }
}

/// Encoding a question list distributes over concatenation.
pub proof fn lemma_questions_wire_concat(a: Seq<QuestionModel>, b: Seq<QuestionModel>)
    ensures
        questions_wire(a + b) == questions_wire(a) + questions_wire(b),
    decreases a.len(),
{
    if a.len() == 0 {
        assert(a + b =~= b);
        assert(questions_wire(a) + questions_wire(b) =~= questions_wire(b));
    } else {
        assert((a + b).drop_first() =~= a.drop_first() + b);
        lemma_questions_wire_concat(a.drop_first(), b);
        assert(questions_wire(a + b) =~= questions_wire(a) + questions_wire(b));
    }
}

/// Encoding a record list distributes over concatenation.
pub proof fn lemma_records_wire_concat(a: Seq<RecordModel>, b: Seq<RecordModel>)
    ensures
        records_wire(a + b) == records_wire(a) + records_wire(b),
    decreases a.len(),
{
    if a.len() == 0 {
        assert(a + b =~= b);
        assert(records_wire(a) + records_wire(b) =~= records_wire(b));
    } else {
        assert((a + b).drop_first() =~= a.drop_first() + b);
        lemma_records_wire_concat(a.drop_first(), b);
        assert(records_wire(a + b) =~= records_wire(a) + records_wire(b));
    }
}

/// Every question of the list encodes cleanly.
pub open spec fn all_questions_ok(qs: Seq<QuestionModel>) -> bool {
    forall|i: int| 0 <= i < qs.len() ==> labels_ok(encode_utf8(#[trigger] qs[i].name))
}

/// Every record of the list encodes cleanly.
pub open spec fn all_records_ok(rs: Seq<RecordModel>) -> bool {
    forall|i: int| 0 <= i < rs.len() ==> record_ok(#[trigger] rs[i])
}

/// Every name of the message encodes cleanly.
pub open spec fn packet_ok(m: PacketModel) -> bool {
    all_questions_ok(m.questions) && all_records_ok(m.answers) && all_records_ok(m.authorities)
        && all_records_ok(m.resources)
}

/// The wire bytes of a whole message whose header counts already match
/// its lists: header, questions, answers, authorities, additional.
pub open spec fn packet_wire(m: PacketModel) -> Seq<u8> {
    header_wire(m.header) + questions_wire(m.questions) + records_wire(m.answers) + records_wire(
        m.authorities,
    ) + records_wire(m.resources)
}

/// Decode `count` questions in a row from the buffer's cursor.
fn read_questions(buf: &mut PacketBuffer, count: u16) -> (r: Result<Vec<DnsQuestion>, DnsError>)
    ensures
        final(buf).buf@ == old(buf).buf@,
        final(buf).pos >= old(buf).pos,
        match r {
            Ok(v) => {
                let p = parse_questions(old(buf).buf@, old(buf).pos as nat, count as nat);
                &&& p is Ok
                &&& v@.map_values(|q: DnsQuestion| q@) == p->Ok_0.0
                &&& final(buf).pos == p->Ok_0.1
            },
            Err(e) => parse_questions(old(buf).buf@, old(buf).pos as nat, count as nat) == Err::<
                (Seq<QuestionModel>, nat),
                DnsError,
            >(e),
        },
{
    let mut v: Vec<DnsQuestion> = Vec::new();
    let mut i: u16 = 0;
    while i < count
        invariant
            i <= count,
            buf.buf@ == old(buf).buf@,
            buf.pos >= old(buf).pos,
            ({
                let p = parse_questions(buf.buf@, buf.pos as nat, (count - i) as nat);
                let total = parse_questions(old(buf).buf@, old(buf).pos as nat, count as nat);
                match p {
                    Ok(pp) => total == Ok::<_, DnsError>(
                        (v@.map_values(|q: DnsQuestion| q@) + pp.0, pp.1),
                    ),
                    Err(e) => total == Err::<(Seq<QuestionModel>, nat), DnsError>(e),
                }
            }),
        decreases count - i,
    {
        let ghost vs0 = v@.map_values(|q: DnsQuestion| q@);
        let ghost pos_before = buf.pos;
        let mut ques = DnsQuestion::new(String::new(), QueryType::UNKNOWN(0));
        ques.read(buf)?;
        v.push(ques);
        proof {
            assert(v@.map_values(|q: DnsQuestion| q@) =~= vs0.push(ques@));
            assert(Seq::<char>::empty() + parse_question(
                buf.buf@,
                pos_before as nat,
            )->Ok_0.0.name =~= parse_question(buf.buf@, pos_before as nat)->Ok_0.0.name);
        }
        i += 1;
        proof {
            let qm = v@.map_values(|q: DnsQuestion| q@);
            let p = parse_questions(buf.buf@, buf.pos as nat, (count - i) as nat);
            if p is Ok {
                assert(vs0 + (seq![qm.last()] + p->Ok_0.0) =~= qm + p->Ok_0.0);
            }
        }
    }
    proof {
        let qm = v@.map_values(|q: DnsQuestion| q@);
        assert(qm + Seq::<QuestionModel>::empty() =~= qm);
    }
    Ok(v)
}

/// Decode `count` resource records in a row from the buffer's cursor.
fn read_records(buf: &mut PacketBuffer, count: u16) -> (r: Result<Vec<DnsRecord>, DnsError>)
    ensures
        final(buf).buf@ == old(buf).buf@,
        final(buf).pos >= old(buf).pos,
        match r {
            Ok(v) => {
                let p = parse_records(old(buf).buf@, old(buf).pos as nat, count as nat);
                &&& p is Ok
                &&& v@.map_values(|rec: DnsRecord| rec@) == p->Ok_0.0
                &&& final(buf).pos == p->Ok_0.1
            },
            Err(e) => parse_records(old(buf).buf@, old(buf).pos as nat, count as nat) == Err::<
                (Seq<RecordModel>, nat),
                DnsError,
            >(e),
        },
{
    let mut v: Vec<DnsRecord> = Vec::new();
    let mut i: u16 = 0;
    while i < count
        invariant
            i <= count,
            buf.buf@ == old(buf).buf@,
            buf.pos >= old(buf).pos,
            ({
                let p = parse_records(buf.buf@, buf.pos as nat, (count - i) as nat);
                let total = parse_records(old(buf).buf@, old(buf).pos as nat, count as nat);
                match p {
                    Ok(pp) => total == Ok::<_, DnsError>(
                        (v@.map_values(|rec: DnsRecord| rec@) + pp.0, pp.1),
                    ),
                    Err(e) => total == Err::<(Seq<RecordModel>, nat), DnsError>(e),
                }
            }),
        decreases count - i,
    {
        let ghost vs0 = v@.map_values(|rec: DnsRecord| rec@);
        let rec = DnsRecord::read(buf)?;
        v.push(rec);
        proof {
            assert(v@.map_values(|rec: DnsRecord| rec@) =~= vs0.push(rec@));
        }
        i += 1;
        proof {
            let rm = v@.map_values(|rec: DnsRecord| rec@);
            let p = parse_records(buf.buf@, buf.pos as nat, (count - i) as nat);
            if p is Ok {
                assert(vs0 + (seq![rm.last()] + p->Ok_0.0) =~= rm + p->Ok_0.0);
            }
        }
    }
    proof {
        let rm = v@.map_values(|rec: DnsRecord| rec@);
        assert(rm + Seq::<RecordModel>::empty() =~= rm);
    }
    Ok(v)
}

/// Encode every question of the list in order at the buffer's cursor.
#[verifier::rlimit(50)]
fn write_questions(buf: &mut PacketBuffer, questions: &Vec<DnsQuestion>) -> (r: Result<
    (),
    DnsError,
>)
    ensures
        ({
            let qs = questions@.map_values(|q: DnsQuestion| q@);
            match r {
                Ok(()) => all_questions_ok(qs)
                    && final(buf).buf@ == splice(old(buf).buf@, old(buf).pos as int, questions_wire(qs))
                    && final(buf).pos == old(buf).pos + questions_wire(qs).len()
                    && (final(buf).pos <= BUF_SIZE || questions_wire(qs).len() == 0),
                Err(e) => !(all_questions_ok(qs) && old(buf).pos + questions_wire(qs).len()
                    <= BUF_SIZE)
                    && (e == DnsError::LabelTooLong ==> !all_questions_ok(qs))
                    && (e == DnsError::OutOfBounds ==> old(buf).pos + questions_wire(qs).len()
                    > BUF_SIZE)
                    && (e == DnsError::LabelTooLong || e == DnsError::OutOfBounds)
                    && final(buf).pos >= old(buf).pos
                    && unchanged_outside(
                    old(buf).buf@,
                    final(buf).buf@,
                    old(buf).pos as int,
                    final(buf).pos as int,
                ),
            }
        }),
{
    let ghost qs = questions@.map_values(|q: DnsQuestion| q@);
    let ghost buf0 = buf.buf@;
    let ghost pos0 = buf.pos as int;
    proof {
        assert(qs.take(0) =~= Seq::<QuestionModel>::empty());
        assert(splice(buf0, pos0, Seq::<u8>::empty()) =~= buf0);
    }
    let n = questions.len();
    let mut i: usize = 0;
    while i < n
        invariant
            i <= n,
            n == questions@.len(),
            qs == questions@.map_values(|q: DnsQuestion| q@),
            pos0 == old(buf).pos,
            buf0 == old(buf).buf@,
            forall|k: int| 0 <= k < i ==> labels_ok(encode_utf8(#[trigger] qs[k].name)),
            buf.pos == pos0 + questions_wire(qs.take(i as int)).len(),
            i > 0 ==> buf.pos <= BUF_SIZE,
            buf.buf@ == splice(buf0, pos0, questions_wire(qs.take(i as int))),
        decreases n - i,
    {
        let ghost sofar = questions_wire(qs.take(i as int));
        proof {
            assert(qs.take(i as int) + seq![qs[i as int]] =~= qs.take(i + 1));
            lemma_questions_wire_concat(qs.take(i as int), seq![qs[i as int]]);
            assert(questions_wire(Seq::<QuestionModel>::empty()) =~= Seq::<u8>::empty());
            assert(seq![qs[i as int]].drop_first() =~= Seq::<QuestionModel>::empty());
            assert(question_wire(qs[i as int]) + Seq::<u8>::empty() =~= question_wire(
                qs[i as int],
            ));
            assert(questions_wire(qs.take(i + 1)) == sofar + question_wire(qs[i as int]));
            assert(qs.take(i + 1) + qs.skip(i + 1) =~= qs);
            lemma_questions_wire_concat(qs.take(i + 1), qs.skip(i + 1));
        }
        questions[i].write(buf)?;
        proof {
            lemma_splice_concat(buf0, pos0, sofar, question_wire(qs[i as int]));
            assert(buf.buf@ == splice(buf0, pos0, questions_wire(qs.take(i + 1))));
        }
        i += 1;
    }
    proof {
        assert(qs.take(n as int) =~= qs);
    }
    Ok(())
}

/// Encode every record of the list in order at the buffer's cursor.
/// Unrecognized records encode to nothing and are simply passed over.
#[verifier::rlimit(50)]
fn write_records(buf: &mut PacketBuffer, records: &Vec<DnsRecord>) -> (r: Result<(), DnsError>)
    ensures
        ({
            let rs = records@.map_values(|rec: DnsRecord| rec@);
            match r {
                Ok(()) => all_records_ok(rs)
                    && final(buf).buf@ == splice(old(buf).buf@, old(buf).pos as int, records_wire(rs))
                    && final(buf).pos == old(buf).pos + records_wire(rs).len()
                    && (final(buf).pos <= BUF_SIZE || records_wire(rs).len() == 0),
                Err(e) => !(all_records_ok(rs) && old(buf).pos + records_wire(rs).len() <= BUF_SIZE)
                    && (e == DnsError::LabelTooLong ==> !all_records_ok(rs))
                    && (e == DnsError::OutOfBounds ==> old(buf).pos + records_wire(rs).len()
                    > BUF_SIZE)
                    && (e == DnsError::LabelTooLong || e == DnsError::OutOfBounds)
                    && final(buf).pos >= old(buf).pos
                    && unchanged_outside(
                    old(buf).buf@,
                    final(buf).buf@,
                    old(buf).pos as int,
                    final(buf).pos as int,
                ),
            }
        }),
{
    let ghost rs = records@.map_values(|rec: DnsRecord| rec@);
    let ghost buf0 = buf.buf@;
    let ghost pos0 = buf.pos as int;
    proof {
        assert(rs.take(0) =~= Seq::<RecordModel>::empty());
        assert(splice(buf0, pos0, Seq::<u8>::empty()) =~= buf0);
    }
    let n = records.len();
    let mut i: usize = 0;
    while i < n
        invariant
            i <= n,
            n == records@.len(),
            rs == records@.map_values(|rec: DnsRecord| rec@),
            pos0 == old(buf).pos,
            buf0 == old(buf).buf@,
            forall|k: int| 0 <= k < i ==> record_ok(#[trigger] rs[k]),
            buf.pos == pos0 + records_wire(rs.take(i as int)).len(),
            i > 0 ==> (buf.pos <= BUF_SIZE || records_wire(rs.take(i as int)).len() == 0),
            buf.buf@ == splice(buf0, pos0, records_wire(rs.take(i as int))),
        decreases n - i,
    {
        let ghost sofar = records_wire(rs.take(i as int));
        proof {
            assert(rs.take(i as int) + seq![rs[i as int]] =~= rs.take(i + 1));
            lemma_records_wire_concat(rs.take(i as int), seq![rs[i as int]]);
            assert(records_wire(Seq::<RecordModel>::empty()) =~= Seq::<u8>::empty());
            assert(seq![rs[i as int]].drop_first() =~= Seq::<RecordModel>::empty());
            assert(record_wire(rs[i as int]) + Seq::<u8>::empty() =~= record_wire(rs[i as int]));
            assert(records_wire(rs.take(i + 1)) == sofar + record_wire(rs[i as int]));
            assert(rs.take(i + 1) + rs.skip(i + 1) =~= rs);
            lemma_records_wire_concat(rs.take(i + 1), rs.skip(i + 1));
        }
        records[i].write(buf)?;
        proof {
            if rs[i as int] is Unknown {
                assert(record_wire(rs[i as int]) =~= Seq::<u8>::empty());
                assert(sofar + record_wire(rs[i as int]) =~= sofar);
                assert(buf.buf@ == splice(buf0, pos0, records_wire(rs.take(i + 1))));
            } else {
                lemma_splice_concat(buf0, pos0, sofar, record_wire(rs[i as int]));
                assert(buf.buf@ == splice(buf0, pos0, records_wire(rs.take(i + 1))));
            }
        }
        i += 1;
    }
    proof {
        assert(rs.take(n as int) =~= rs);
    }
    Ok(())
}

impl DnsPacket {
    /// An empty message under a default header.
    pub fn new() -> (r: DnsPacket)
        ensures
            r.header == default_header(),
            r.questions@.len() == 0,
            r.answers@.len() == 0,
            r.authorities@.len() == 0,
            r.resources@.len() == 0,
    {
        DnsPacket {
            header: DnsHeader::new(),
            questions: Vec::new(),
            answers: Vec::new(),
            authorities: Vec::new(),
            resources: Vec::new(),
        }
    }

    /// Decode a whole message from the buffer's cursor: the header, then
    /// exactly as many questions, answers, authorities and additional
    /// records as the header counts say, each beginning where the one
    /// before ended.
    pub fn from_buf(buf: &mut PacketBuffer) -> (r: Result<DnsPacket, DnsError>)
        ensures
            final(buf).buf@ == old(buf).buf@,
            final(buf).pos >= old(buf).pos,
            match r {
                Ok(pak) => {
                    let p = parse_packet(old(buf).buf@, old(buf).pos as nat);
                    &&& p is Ok
                    &&& pak@ == p->Ok_0.0
                    &&& final(buf).pos == p->Ok_0.1
                },
                Err(e) => parse_packet(old(buf).buf@, old(buf).pos as nat) == Err::<
                    (PacketModel, nat),
                    DnsError,
                >(e),
            },
    {
        let mut result = DnsPacket::new();
        result.header.read(buf)?;

        let questions = read_questions(buf, result.header.ques_count)?;
        result.questions = questions;
        let answers = read_records(buf, result.header.ans_count)?;
        result.answers = answers;
        let authorities = read_records(buf, result.header.auth_count)?;
        result.authorities = authorities;
        let resources = read_records(buf, result.header.res_count)?;
        result.resources = resources;

        proof {
            assert(result@ =~= parse_packet(old(buf).buf@, old(buf).pos as nat)->Ok_0.0);
        }
        Ok(result)
    }

    /// Encode this message at the buffer's cursor.  The four header
    /// counts are set from the actual list lengths first, whatever the
    /// header held before; then the header, all questions, answers,
    /// authorities and additional records go out in that fixed order.
    #[verifier::rlimit(100)]
    pub fn write(&mut self, buf: &mut PacketBuffer) -> (r: Result<(), DnsError>)
        ensures
            final(self).header == (DnsHeader {
                ques_count: old(self).questions@.len() as u16,
                ans_count: old(self).answers@.len() as u16,
                auth_count: old(self).authorities@.len() as u16,
                res_count: old(self).resources@.len() as u16,
                ..old(self).header
            }),
            final(self).questions == old(self).questions,
            final(self).answers == old(self).answers,
            final(self).authorities == old(self).authorities,
            final(self).resources == old(self).resources,
            match r {
                Ok(()) => {
                    let w = packet_wire(final(self)@);
                    &&& packet_ok(final(self)@)
                    &&& old(buf).pos + w.len() <= BUF_SIZE
                    &&& final(buf).buf@ == splice(old(buf).buf@, old(buf).pos as int, w)
                    &&& final(buf).pos == old(buf).pos + w.len()
                },
                Err(e) => {
                    let w = packet_wire(final(self)@);
                    &&& !(packet_ok(final(self)@) && old(buf).pos + w.len() <= BUF_SIZE)
                    &&& (e == DnsError::LabelTooLong ==> !packet_ok(final(self)@))
                    &&& (e == DnsError::OutOfBounds ==> old(buf).pos + w.len() > BUF_SIZE)
                    &&& (e == DnsError::LabelTooLong || e == DnsError::OutOfBounds)
                    &&& final(buf).pos >= old(buf).pos
                    &&& unchanged_outside(
                        old(buf).buf@,
                        final(buf).buf@,
                        old(buf).pos as int,
                        final(buf).pos as int,
                    )
                },
            },
    {
        self.header.ques_count = #[verifier::truncate] (self.questions.len() as u16);
        self.header.ans_count = #[verifier::truncate] (self.answers.len() as u16);
        self.header.auth_count = #[verifier::truncate] (self.authorities.len() as u16);
        self.header.res_count = #[verifier::truncate] (self.resources.len() as u16);

        let ghost buf0 = buf.buf@;
        let ghost pos0 = buf.pos as int;
        self.header.write(buf)?;
        let ghost w1 = header_wire(self.header);

        write_questions(buf, &self.questions)?;
        proof {
            lemma_splice_concat(
                buf0,
                pos0,
                w1,
                questions_wire(self.questions@.map_values(|q: DnsQuestion| q@)),
            );
        }
        let ghost w2 = w1 + questions_wire(self.questions@.map_values(|q: DnsQuestion| q@));

        write_records(buf, &self.answers)?;
        proof {
            lemma_splice_concat(
                buf0,
                pos0,
                w2,
                records_wire(self.answers@.map_values(|rec: DnsRecord| rec@)),
            );
        }
        let ghost w3 = w2 + records_wire(self.answers@.map_values(|rec: DnsRecord| rec@));

        write_records(buf, &self.authorities)?;
        proof {
            lemma_splice_concat(
                buf0,
                pos0,
                w3,
                records_wire(self.authorities@.map_values(|rec: DnsRecord| rec@)),
            );
        }
        let ghost w4 = w3 + records_wire(self.authorities@.map_values(|rec: DnsRecord| rec@));

        write_records(buf, &self.resources)?;
        proof {
            lemma_splice_concat(
                buf0,
                pos0,
                w4,
                records_wire(self.resources@.map_values(|rec: DnsRecord| rec@)),
            );
            assert(w4 + records_wire(self.resources@.map_values(|rec: DnsRecord| rec@))
                =~= packet_wire(self@));
        }
        Ok(())
    }
}

} // verus!
