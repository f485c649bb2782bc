//! A2S_RULES: the request for the server rules and its reply.
use crate::challenge::{
    lemma_slot_bytes_back, lemma_slot_len, lemma_slot_round_trip, read_slot, slot_bytes, slot_ok, spec_slot_at,
    write_slot,
};
use crate::header::{SourceQueryRequest, SourceQueryResponse, read_kind, spec_kind_at, QueryHeader, SourceChallenge};
use crate::wire::{whole, 
    cstr_bytes, i16_bytes, lemma_cstr_bytes_back, lemma_cstr_round_trip, lemma_i16_bytes_back,
    lemma_i16_round_trip, lemma_join, lemma_split, lift_view, nul_free, read_cstr, read_i16,
    spec_cstr_at, spec_i16_at, value_of, view_result, write_cstr, write_i16, CodecError, SpecRead,
};
use vstd::prelude::*;

verus! {

broadcast use vstd::seq::group_seq_axioms;

// ---------------------------------------------------------------------------
// Request
// ---------------------------------------------------------------------------

/// The request for the server rules.
#[derive(Debug, Clone, Copy, PartialEq, Eq)]
pub struct A2SRules {
    pub header: QueryHeader,
    pub challenge: Option<SourceChallenge>,
}

impl A2SRules {
    pub open spec fn wf(&self) -> bool {
        self.header == QueryHeader::A2SRules && slot_ok(self.challenge)
    }

    /// A request that asks for a challenge.
    pub fn new() -> (r: Self)
        ensures
            r == (A2SRules { header: QueryHeader::A2SRules, challenge: None }),
    {
        A2SRules { header: QueryHeader::A2SRules, challenge: None }
    }

    pub fn with_challenge(challenge: SourceChallenge) -> (r: Self)
        ensures
            r == (A2SRules { header: QueryHeader::A2SRules, challenge: Some(challenge) }),
    {
        A2SRules { header: QueryHeader::A2SRules, challenge: Some(challenge) }
    }


    /// The body: the kind byte, then the four-byte challenge slot.
    pub open spec fn spec_encode(&self) -> Seq<u8> {
        seq![self.header.spec_byte()] + slot_bytes(self.challenge)
    }

    /// The body, parsed as far as the packet goes.
    pub open spec fn spec_parse(b: Seq<u8>) -> SpecRead<A2SRules> {
        match spec_kind_at(b, 0, QueryHeader::A2SRules) {
            Err(e) => Err(e),
            Ok((header, p)) => match spec_slot_at(b, p) {
                Err(e) => Err(e),
                Ok((challenge, end)) => Ok((A2SRules { header, challenge }, end)),
            },
        }
    }

    /// The body decoded: the packet, which must end at the body's last byte.
    pub open spec fn spec_decode(b: Seq<u8>) -> SpecRead<A2SRules> {
        whole(Self::spec_parse(b), b.len() as int)
    }

    /// The body, without the outer header.
    pub fn encode(&self) -> (r: Vec<u8>)
        ensures
            r@ == self.spec_encode(),
    {
        let mut out: Vec<u8> = Vec::new();
        out.push(self.header.to_byte());
        write_slot(&mut out, self.challenge);
        out
    }

    /// Decodes a body (a datagram without its outer header). Bytes after the
    /// packet make it malformed.
    pub fn decode(b: &[u8]) -> (r: Result<A2SRules, CodecError>)
        ensures
            r == value_of(Self::spec_decode(b@)),
    {
        match read_kind(b, 0, QueryHeader::A2SRules) {
            Err(e) => Err(e),
            Ok((header, p)) => match read_slot(b, p) {
                Err(e) => Err(e),
                Ok((challenge, end)) => if end == b.len() {
                    Ok(A2SRules { header, challenge })
                } else {
                    Err(CodecError::MalformedField)
                },
            },
        }
    }
}

/// Decoding the encoding of a well-formed rules request gives it back.
pub proof fn lemma_rules_request_decode_encode(v: A2SRules)
    requires
        v.wf(),
    ensures
        A2SRules::spec_decode(v.spec_encode()) == Ok::<(A2SRules, int), CodecError>(
            (v, v.spec_encode().len() as int),
        ),
{
    let b = v.spec_encode();
    v.header.lemma_byte_round_trip(b[0]);
    lemma_slot_len(v.challenge);
    assert(b.subrange(1, 5) =~= slot_bytes(v.challenge));
    lemma_slot_round_trip(b, 1, v.challenge);
}

/// A decoded rules request is well formed and re-encodes to exactly the
/// bytes it was read from.
pub proof fn lemma_rules_request_encode_decode(b: Seq<u8>)
    requires
        A2SRules::spec_decode(b) is Ok,
    ensures
        ({
            let (v, _) = A2SRules::spec_decode(b)->Ok_0;
            v.wf() && v.spec_encode() == b
        }),
{
    let (v, end) = A2SRules::spec_decode(b)->Ok_0;
    v.header.lemma_byte_round_trip(b[0]);
    lemma_slot_bytes_back(b, 1);
    assert(v.spec_encode() =~= b.subrange(0, end));
    assert(b.subrange(0, end) =~= b);
}

// ---------------------------------------------------------------------------
// Reply
// ---------------------------------------------------------------------------

/// One server rule: a name and its value.
#[derive(Debug, Clone, PartialEq, Eq)]
pub struct A2SRule {
    pub name: String,
    pub value: String,
}

pub struct A2SRuleView {
    pub name: Seq<char>,
    pub value: Seq<char>,
}

impl View for A2SRule {
    type V = A2SRuleView;

    open spec fn view(&self) -> A2SRuleView {
        A2SRuleView { name: self.name@, value: self.value@ }
    }
}

/// The reply with the server rules.
#[derive(Debug, Clone, PartialEq, Eq)]
pub struct A2SRulesReply {
    pub header: QueryHeader,
    pub num_rules: i16,
    pub rules: Vec<A2SRule>,
}

pub struct A2SRulesReplyView {
    pub header: QueryHeader,
    pub num_rules: i16,
    pub rules: Seq<A2SRuleView>,
}

impl View for A2SRulesReply {
    type V = A2SRulesReplyView;

    open spec fn view(&self) -> A2SRulesReplyView {
        A2SRulesReplyView {
            header: self.header,
            num_rules: self.num_rules,
            rules: self.rules@.map_values(|r: A2SRule| r@),
        }
    }
}

/// The wire form of one rule: its name, then its value.
pub open spec fn rule_bytes(r: A2SRuleView) -> Seq<u8> {
    cstr_bytes(r.name) + cstr_bytes(r.value)
}

/// The wire form of a list of rules, one after another.
pub open spec fn rules_bytes(rs: Seq<A2SRuleView>) -> Seq<u8>
    decreases rs.len(),
{
    if rs.len() == 0 {
        Seq::empty()
    } else {
        rules_bytes(rs.drop_last()) + rule_bytes(rs.last())
    }
}

pub open spec fn rule_ok(r: A2SRuleView) -> bool {
    nul_free(r.name) && nul_free(r.value)
}

pub open spec fn spec_rule_at(b: Seq<u8>, pos: int) -> SpecRead<A2SRuleView> {
    match spec_cstr_at(b, pos) {
        Err(e) => Err(e),
        Ok((name, p)) => match spec_cstr_at(b, p) {
            Err(e) => Err(e),
            Ok((value, end)) => Ok((A2SRuleView { name, value }, end)),
        },
    }
}

/// `n` rules read one after another from `pos`; the first failure wins.
pub open spec fn spec_rules_at(b: Seq<u8>, pos: int, n: nat) -> SpecRead<Seq<A2SRuleView>>
    decreases n,
{
    if n == 0 {
        Ok((Seq::empty(), pos))
    } else {
        match spec_rules_at(b, pos, (n - 1) as nat) {
            Err(e) => Err(e),
            Ok((rs, p)) => match spec_rule_at(b, p) {
                Err(e) => Err(e),
                Ok((r, end)) => Ok((rs.push(r), end)),
            },
        }
    }
}

impl A2SRulesReplyView {
    pub open spec fn wf(&self) -> bool {
        &&& self.header == QueryHeader::A2SRulesReply
        &&& self.rules.len() == self.num_rules
        &&& forall|i: int| 0 <= i < self.rules.len() ==> rule_ok(#[trigger] self.rules[i])
    }

    /// The body: the kind byte, the two-byte count, then the rules.
    pub open spec fn spec_encode(&self) -> Seq<u8> {
        seq![self.header.spec_byte()] + i16_bytes(self.num_rules) + rules_bytes(self.rules)
    }
}

impl A2SRulesReply {
    /// The body, parsed as far as the packet goes.
    pub open spec fn spec_parse(b: Seq<u8>) -> SpecRead<A2SRulesReplyView> {
        match spec_kind_at(b, 0, QueryHeader::A2SRulesReply) {
            Err(e) => Err(e),
            Ok((header, p1)) => match spec_i16_at(b, p1) {
                Err(e) => Err(e),
                Ok((num_rules, p2)) => if num_rules < 0 {
                    Err(CodecError::MalformedField)
                } else {
                    match spec_rules_at(b, p2, num_rules as nat) {
                        Err(e) => Err(e),
                        Ok((rules, end)) => Ok(
                            (A2SRulesReplyView { header, num_rules, rules }, end),
                        ),
                    }
                },
            },
        }
    }

    /// The body decoded: the packet, which must end at the body's last byte.
    pub open spec fn spec_decode(b: Seq<u8>) -> SpecRead<A2SRulesReplyView> {
        whole(Self::spec_parse(b), b.len() as int)
    }


    /// The body, without the outer header.
    pub fn encode(&self) -> (r: Vec<u8>)
        ensures
            r@ == self@.spec_encode(),
    {
        let mut out: Vec<u8> = Vec::new();
        out.push(self.header.to_byte());
        write_i16(&mut out, self.num_rules);
        let ghost start = out@;
        let mut i: usize = 0;
        while i < self.rules.len()
            invariant
                i <= self.rules@.len(),
                start == seq![self.header.spec_byte()] + i16_bytes(self.num_rules),
                out@ == start + rules_bytes(self@.rules.take(i as int)),
            decreases self.rules@.len() - i,
        {
            write_rule(&mut out, &self.rules[i]);
            proof {
                let rs = self@.rules.take(i + 1);
                assert(rs.drop_last() =~= self@.rules.take(i as int));
                assert(rs.last() == self.rules@[i as int]@);
            }
            i = i + 1;
        }
        assert(self@.rules.take(i as int) =~= self@.rules);
        out
    }

    /// Decodes a body (a datagram without its outer header). Bytes after the
    /// packet make it malformed.
    pub fn decode(b: &[u8]) -> (r: Result<A2SRulesReply, CodecError>)
        ensures
            view_result(r) == value_of(Self::spec_decode(b@)),
    {
        let (header, p1) = match read_kind(b, 0, QueryHeader::A2SRulesReply) {
            Err(e) => return Err(e),
            Ok(x) => x,
        };
        let (num_rules, p2) = match read_i16(b, p1) {
            Err(e) => return Err(e),
            Ok(x) => x,
        };
        if num_rules < 0 {
            return Err(CodecError::MalformedField);
        }
        let count: u16 = num_rules as u16;
        let mut rules: Vec<A2SRule> = Vec::new();
        let mut pos: usize = p2;
        let mut i: u16 = 0;
        assert(rules@.map_values(|r: A2SRule| r@) =~= Seq::<A2SRuleView>::empty());
        while i < count
            invariant
                i <= count,
                0 <= num_rules,
                count as int == num_rules as int,
                spec_kind_at(b@, 0, QueryHeader::A2SRulesReply) == Ok::<(QueryHeader, int), CodecError>(
                    (header, p1 as int),
                ),
                spec_i16_at(b@, p1 as int) == Ok::<(i16, int), CodecError>((num_rules, p2 as int)),
                spec_rules_at(b@, p2 as int, i as nat) == Ok::<(Seq<A2SRuleView>, int), CodecError>(
                    (rules@.map_values(|r: A2SRule| r@), pos as int),
                ),
            decreases count - i,
        {
            match read_rule(b, pos) {
                Err(e) => {
                    proof {
                        assert(((i + 1) as nat - 1) as nat == i as nat);
                        assert(spec_rules_at(b@, p2 as int, (i + 1) as nat) == Err::<
                            (Seq<A2SRuleView>, int),
                            CodecError,
                        >(e));
                        lemma_rules_error_stays(b@, p2 as int, (i + 1) as nat, count as nat);
                    }
                    return Err(e);
                },
                Ok((r, next)) => {
                    let ghost before = rules@;
                    rules.push(r);
                    assert(rules@.map_values(|r: A2SRule| r@) =~= before.map_values(
                        |r: A2SRule| r@,
                    ).push(r@));
                    pos = next;
                },
            }
            i = i + 1;
        }
        if pos != b.len() {
            return Err(CodecError::MalformedField);
        }
        Ok(A2SRulesReply { header, num_rules, rules })
    }
}

fn write_rule(out: &mut Vec<u8>, r: &A2SRule)
    ensures
        final(out)@ == old(out)@ + rule_bytes(r@),
{
    write_cstr(out, &r.name);
    write_cstr(out, &r.value);
    assert(out@ =~= old(out)@ + rule_bytes(r@));
}

fn read_rule(b: &[u8], pos: usize) -> (r: Result<(A2SRule, usize), CodecError>)
    ensures
        lift_view(r) == spec_rule_at(b@, pos as int),
{
    let (name, p) = match read_cstr(b, pos) {
        Err(e) => return Err(e),
        Ok(x) => x,
    };
    let (value, end) = match read_cstr(b, p) {
        Err(e) => return Err(e),
        Ok(x) => x,
    };
    Ok((A2SRule { name, value }, end))
}

/// Once reading the first `k` rules fails, reading more fails the same way.
proof fn lemma_rules_error_stays(b: Seq<u8>, pos: int, k: nat, n: nat)
    requires
        k <= n,
        spec_rules_at(b, pos, k) is Err,
    ensures
        spec_rules_at(b, pos, n) == spec_rules_at(b, pos, k),
    decreases n - k,
{
    if k < n {
        lemma_rules_error_stays(b, pos, k, (n - 1) as nat);
    }
}

proof fn lemma_rule_round_trip(b: Seq<u8>, pos: int, r: A2SRuleView)
    requires
        rule_ok(r),
        0 <= pos,
        pos + rule_bytes(r).len() <= b.len(),
        b.subrange(pos, pos + rule_bytes(r).len()) == rule_bytes(r),
    ensures
        spec_rule_at(b, pos) == Ok::<(A2SRuleView, int), CodecError>(
            (r, pos + rule_bytes(r).len()),
        ),
{
    let n = cstr_bytes(r.name);
    let v = cstr_bytes(r.value);
    lemma_split(b, pos, n, v);
    lemma_cstr_round_trip(b, pos, r.name);
    lemma_cstr_round_trip(b, pos + n.len(), r.value);
}

proof fn lemma_rule_bytes_back(b: Seq<u8>, pos: int)
    requires
        0 <= pos,
        spec_rule_at(b, pos) is Ok,
    ensures
        ({
            let (r, end) = spec_rule_at(b, pos)->Ok_0;
            &&& rule_ok(r)
            &&& pos + rule_bytes(r).len() == end
            &&& end <= b.len()
            &&& b.subrange(pos, end) == rule_bytes(r)
        }),
{
    lemma_cstr_bytes_back(b, pos);
    let p = spec_cstr_at(b, pos)->Ok_0.1;
    lemma_cstr_bytes_back(b, p);
    let end = spec_rule_at(b, pos)->Ok_0.1;
    lemma_join(b, pos, p, end);
}

proof fn lemma_rules_round_trip(b: Seq<u8>, pos: int, rs: Seq<A2SRuleView>)
    requires
        forall|i: int| 0 <= i < rs.len() ==> rule_ok(#[trigger] rs[i]),
        0 <= pos,
        pos + rules_bytes(rs).len() <= b.len(),
        b.subrange(pos, pos + rules_bytes(rs).len()) == rules_bytes(rs),
    ensures
        spec_rules_at(b, pos, rs.len()) == Ok::<(Seq<A2SRuleView>, int), CodecError>(
            (rs, pos + rules_bytes(rs).len()),
        ),
    decreases rs.len(),
{
    if rs.len() == 0 {
        assert(rs =~= Seq::<A2SRuleView>::empty());
    } else {
        let init = rs.drop_last();
        let last = rs.last();
        assert(rules_bytes(rs) == rules_bytes(init) + rule_bytes(last));
        assert((rs.len() - 1) as nat == init.len());
        lemma_split(b, pos, rules_bytes(init), rule_bytes(last));
        assert forall|i: int| 0 <= i < init.len() implies rule_ok(#[trigger] init[i]) by {
            assert(init[i] == rs[i]);
        }
        lemma_rules_round_trip(b, pos, init);
        assert(rule_ok(rs[rs.len() - 1]));
        lemma_rule_round_trip(b, pos + rules_bytes(init).len(), last);
        assert(init.push(last) =~= rs);
    }
}

proof fn lemma_rules_bytes_back(b: Seq<u8>, pos: int, n: nat)
    requires
        0 <= pos <= b.len(),
        spec_rules_at(b, pos, n) is Ok,
    ensures
        ({
            let (rs, end) = spec_rules_at(b, pos, n)->Ok_0;
            &&& rs.len() == n
            &&& forall|i: int| 0 <= i < rs.len() ==> rule_ok(#[trigger] rs[i])
            &&& pos + rules_bytes(rs).len() == end
            &&& end <= b.len()
            &&& b.subrange(pos, end) == rules_bytes(rs)
        }),
    decreases n,
{
    if n == 0 {
        assert(b.subrange(pos, pos) =~= Seq::<u8>::empty());
    } else {
        lemma_rules_bytes_back(b, pos, (n - 1) as nat);
        let (init, p) = spec_rules_at(b, pos, (n - 1) as nat)->Ok_0;
        lemma_rule_bytes_back(b, p);
        let (rs, end) = spec_rules_at(b, pos, n)->Ok_0;
        assert(rs.drop_last() =~= init);
        lemma_join(b, pos, p, end);
        assert forall|i: int| 0 <= i < rs.len() implies rule_ok(#[trigger] rs[i]) by {
            if i < init.len() {
                assert(rs[i] == init[i]);
            }
        }
    }
}

/// Decoding the encoding of a well-formed rules reply gives it back.
pub proof fn lemma_rules_reply_decode_encode(v: A2SRulesReplyView)
    requires
        v.wf(),
    ensures
        A2SRulesReply::spec_decode(v.spec_encode()) == Ok::<(A2SRulesReplyView, int), CodecError>(
            (v, v.spec_encode().len() as int),
        ),
{
    let b = v.spec_encode();
    let body = rules_bytes(v.rules);
    v.header.lemma_byte_round_trip(b[0]);
    lemma_i16_round_trip(v.num_rules);
    assert(b.subrange(1, 3) =~= i16_bytes(v.num_rules));
    assert(b.subrange(3, (3 + body.len()) as int) =~= body);
    lemma_rules_round_trip(b, 3, v.rules);
}

/// A decoded rules reply is well formed and re-encodes to exactly the bytes it
/// was read from.
pub proof fn lemma_rules_reply_encode_decode(b: Seq<u8>)
    requires
        A2SRulesReply::spec_decode(b) is Ok,
    ensures
        ({
            let (v, _) = A2SRulesReply::spec_decode(b)->Ok_0;
            v.wf() && v.spec_encode() == b
        }),
{
    let (v, end) = A2SRulesReply::spec_decode(b)->Ok_0;
    v.header.lemma_byte_round_trip(b[0]);
    lemma_i16_bytes_back(b.subrange(1, 3));
    lemma_rules_bytes_back(b, 3, v.num_rules as nat);
    assert(b.subrange(0, 3) =~= seq![b[0]] + b.subrange(1, 3));
    lemma_join(b, 0, 3, end);
    assert(b.subrange(0, end) =~= b);
}

impl SourceQueryResponse for A2SRulesReply {
    open spec fn spec_packet_header() -> QueryHeader {
        QueryHeader::A2SRulesReply
    }

    fn packet_header() -> (r: QueryHeader) {
        QueryHeader::A2SRulesReply
    }
}

impl SourceQueryRequest for A2SRules {
    open spec fn spec_with_challenge(self, challenge: SourceChallenge) -> Self {
        A2SRules { challenge: Some(challenge), ..self }
    }

    fn set_challenge(&mut self, challenge: SourceChallenge) {
        self.challenge = Some(challenge);
    }
}

} // verus!
