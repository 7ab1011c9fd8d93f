//! The pure steps of the single-query forwarding flow.  The datagram
//! socket work — binding, sending the encoded query upstream, blocking for
//! the one reply, and answering the original peer — belongs to the caller;
//! these functions build the query message, derive the response skeleton
//! from a request header, and fold each upstream outcome into the
//! response.
use vstd::prelude::*;

use crate::header::DnsHeader;
use crate::header::ResCode;
use crate::header::default_header;
use crate::packet::DnsPacket;
use crate::record::DnsQuestion;

verus! {

/// Build the one-question query a lookup sends upstream: the caller's
/// transaction id, the query bit (not a response), recursion desired, and
/// the question as the only entry of any section.
pub fn build_lookup_query(id: u16, ques: DnsQuestion) -> (r: DnsPacket)
    ensures
        r.header == (DnsHeader { id: id, query_res: false, rec_des: true, ..default_header() }),
        r.questions@ == seq![ques],
        r.answers@.len() == 0,
        r.authorities@.len() == 0,
        r.resources@.len() == 0,
{
    let mut pak = DnsPacket::new();
    pak.header.id = id;
    pak.header.query_res = false;
    pak.header.rec_des = true;
    pak.questions.push(ques);
    proof {
        assert(pak.questions@ =~= seq![ques]);
    }
    pak
}

/// Derive the empty response a query handler starts from: the request's
/// transaction id and opcode come back, the response bit is set, recursion
/// is echoed as desired but not offered, and the response code is `NO_ERR`
/// for a standard query and `NOT_IMP` for any other opcode.
pub fn build_response_shell(req_header: &DnsHeader) -> (r: DnsPacket)
    ensures
        r.header == (DnsHeader {
            id: req_header.id,
            query_res: true,
            opcode: req_header.opcode,
            rec_av: false,
            rec_des: req_header.rec_des,
            res_code: if req_header.opcode == 0 {
                ResCode::NO_ERR
            } else {
                ResCode::NOT_IMP
            },
            ..default_header()
        }),
        r.questions@.len() == 0,
        r.answers@.len() == 0,
        r.authorities@.len() == 0,
        r.resources@.len() == 0,
{
    let mut response = DnsPacket::new();
    response.header.id = req_header.id;
    response.header.query_res = true;
    response.header.opcode = req_header.opcode;
    response.header.rec_av = false;
    response.header.rec_des = req_header.rec_des;
    response.header.res_code = if req_header.opcode == 0 {
        ResCode::NO_ERR
    } else {
        ResCode::NOT_IMP
    };
    response
}

/// Fold one upstream lookup outcome into the response: the question joins
/// the response's question section either way; a reply contributes all its
/// answers, and a failed lookup marks the whole response `SERV_FAIL`.
pub fn apply_lookup_result(
    response: &mut DnsPacket,
    ques: DnsQuestion,
    result: Option<DnsPacket>,
) -> (nothing: ())
    ensures
        final(response).questions@ == old(response).questions@.push(ques),
        final(response).authorities == old(response).authorities,
        final(response).resources == old(response).resources,
        match result {
            Some(reply) => final(response).answers@ == old(response).answers@ + reply.answers@
                && final(response).header == old(response).header,
            None => final(response).answers == old(response).answers && final(response).header == (
            DnsHeader { res_code: ResCode::SERV_FAIL, ..old(response).header }),
        },
{
    response.questions.push(ques);
    match result {
        Some(reply) => {
            let mut answers = reply.answers;
            response.answers.append(&mut answers);
        },
        None => {
            response.header.res_code = ResCode::SERV_FAIL;
        },
    }
}

} // verus!
