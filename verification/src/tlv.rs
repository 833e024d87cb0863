//! The flat type-length-value record encoding of control bodies.
//!
//! A body is a list of records, each a one-byte tag, a one-byte length and
//! that many value bytes. The state machine inspects only the tags relevant
//! to negotiation; records with unknown tags are carried through untouched,
//! never rejected. Encoding and decoding are symmetric: decoding an encoded
//! record list gives the list back exactly.

use vstd::prelude::*;

use crate::error::SessionError;

verus! {

/// One record: a tag and up to 255 value bytes.
#[derive(Clone, Debug)]
pub struct TlvRecord {
    /// The record tag.
    pub tag: u8,
    /// The value bytes.
    pub value: Vec<u8>,
}

impl View for TlvRecord {
    type V = (u8, Seq<u8>);

    open spec fn view(&self) -> (u8, Seq<u8>) {
        (self.tag, self.value@)
    }
}

impl TlvRecord {
    /// A record's value fits its one-byte length field.
    pub open spec fn wf(&self) -> bool {
        self.value@.len() <= 255
    }
}

/// The models of a list of records.
pub open spec fn spec_records_of(v: Seq<TlvRecord>) -> Seq<(u8, Seq<u8>)> {
    v.map_values(|r: TlvRecord| r@)
}

/// The bytes of one record: tag, length, value.
pub open spec fn spec_encode_record(r: (u8, Seq<u8>)) -> Seq<u8> {
    seq![r.0, r.1.len() as u8] + r.1
}

/// The bytes of a record list, first record first.
pub open spec fn spec_tlv_encode(rs: Seq<(u8, Seq<u8>)>) -> Seq<u8>
    decreases rs.len(),
{
    if rs.len() == 0 {
        Seq::empty()
    } else {
        spec_encode_record(rs[0]) + spec_tlv_encode(rs.skip(1))
    }
}

/// The record list a byte sequence denotes, or nothing where a record is
/// truncated.
pub open spec fn spec_tlv_decode(bytes: Seq<u8>) -> Option<Seq<(u8, Seq<u8>)>>
    decreases bytes.len(),
{
    if bytes.len() == 0 {
        Some(Seq::empty())
    } else if bytes.len() < 2 {
        None
    } else {
        let l = bytes[1] as int;
        if bytes.len() < 2 + l {
            None
        } else {
            match spec_tlv_decode(bytes.skip(2 + l)) {
                None => None,
                Some(rest) => Some(seq![(bytes[0], bytes.subrange(2, 2 + l))] + rest),
            }
        }
    }
}

/// Encodes the records from position `i` on.
fn tlv_encode_from(records: &Vec<TlvRecord>, i: usize) -> (out: Vec<u8>)
    requires
        i <= records@.len(),
        forall|k: int| 0 <= k < records@.len() ==> (#[trigger] records@[k]).wf(),
    ensures
        out@ == spec_tlv_encode(spec_records_of(records@).skip(i as int)),
    decreases records@.len() - i,
{
    if i == records.len() {
        let out: Vec<u8> = Vec::new();
        proof {
            assert(spec_records_of(records@).skip(i as int) =~= Seq::<(u8, Seq<u8>)>::empty());
        }
        out
    } else {
        let rec = &records[i];
        let mut out: Vec<u8> = Vec::new();
        out.push(rec.tag);
        out.push(rec.value.len() as u8);
        let mut j: usize = 0;
        while j < rec.value.len()
            invariant
                j <= rec.value@.len(),
                out@.len() == 2 + j,
                out@[0] == rec.tag,
                out@[1] == rec.value@.len() as u8,
                forall|k: int| 0 <= k < j ==> out@[2 + k] == rec.value@[k],
            decreases rec.value@.len() - j,
        {
            out.push(rec.value[j]);
            j = j + 1;
        }
        let mut rest = tlv_encode_from(records, i + 1);
        out.append(&mut rest);
        proof {
            let models = spec_records_of(records@);
            assert(models.skip(i as int)[0] == records@[i as int]@);
            assert(models.skip(i as int).skip(1) =~= models.skip(i as int + 1));
            assert(out@ =~= spec_tlv_encode(models.skip(i as int)));
        }
        out
    }
}

/// Encodes a record list, first record first.
pub fn tlv_encode(records: &Vec<TlvRecord>) -> (out: Vec<u8>)
    requires
        forall|k: int| 0 <= k < records@.len() ==> (#[trigger] records@[k]).wf(),
    ensures
        out@ == spec_tlv_encode(spec_records_of(records@)),
{
    let out = tlv_encode_from(records, 0);
    proof {
        assert(spec_records_of(records@).skip(0) =~= spec_records_of(records@));
    }
    out
}

/// Decodes the records from position `pos` on.
fn tlv_decode_from(bytes: &Vec<u8>, pos: usize) -> (r: Result<Vec<TlvRecord>, SessionError>)
    requires
        pos <= bytes@.len(),
    ensures
        match r {
            Ok(records) => spec_tlv_decode(bytes@.skip(pos as int)) == Some(
                spec_records_of(records@),
            ) && forall|k: int| 0 <= k < records@.len() ==> (#[trigger] records@[k]).wf(),
            Err(e) => spec_tlv_decode(bytes@.skip(pos as int)) is None && e
                == SessionError::ProtocolError,
        },
    decreases bytes@.len() - pos,
{
    let total = bytes.len();
    if pos == total {
        let records: Vec<TlvRecord> = Vec::new();
        proof {
            assert(bytes@.skip(pos as int) =~= Seq::<u8>::empty());
            assert(spec_records_of(records@) =~= Seq::<(u8, Seq<u8>)>::empty());
        }
        return Ok(records);
    }
    if total - pos < 2 {
        return Err(SessionError::ProtocolError);
    }
    let tag = bytes[pos];
    let l: usize = bytes[pos + 1] as usize;
    if total - pos - 2 < l {
        return Err(SessionError::ProtocolError);
    }
    let mut value: Vec<u8> = Vec::new();
    let mut j: usize = 0;
    while j < l
        invariant
            j <= l,
            pos + 2 + l <= total,
            total == bytes@.len(),
            value@.len() == j,
            forall|k: int| 0 <= k < j ==> value@[k] == bytes@[pos + 2 + k],
        decreases l - j,
    {
        value.push(bytes[pos + 2 + j]);
        j = j + 1;
    }
    match tlv_decode_from(bytes, pos + 2 + l) {
        Err(e) => {
            proof {
                assert(bytes@.skip(pos as int).skip(2 + l) =~= bytes@.skip(pos as int + 2 + l));
            }
            Err(e)
        },
        Ok(mut rest) => {
            let ghost rest_models = spec_records_of(rest@);
            rest.insert(0, TlvRecord { tag, value });
            proof {
                let suffix = bytes@.skip(pos as int);
                assert(suffix.skip(2 + l) =~= bytes@.skip(pos as int + 2 + l));
                assert(value@ =~= suffix.subrange(2, 2 + l));
                assert(spec_records_of(rest@) =~= seq![(tag, value@)] + rest_models);
            }
            Ok(rest)
        },
    }
}

/// Decodes a byte sequence into its record list. Succeeds exactly when the
/// bytes are a whole number of records; a truncated record is a malformed
/// body and fails with `ProtocolError`.
pub fn tlv_decode(bytes: &Vec<u8>) -> (r: Result<Vec<TlvRecord>, SessionError>)
    ensures
        match r {
            Ok(records) => spec_tlv_decode(bytes@) == Some(spec_records_of(records@)) && forall|
                k: int,
            | 0 <= k < records@.len() ==> (#[trigger] records@[k]).wf(),
            Err(e) => spec_tlv_decode(bytes@) is None && e == SessionError::ProtocolError,
        },
{
    let r = tlv_decode_from(bytes, 0);
    proof {
        assert(bytes@.skip(0) =~= bytes@);
    }
    r
}

/// Law: decoding an encoded record list gives the list back exactly,
/// whatever the tags — unknown records are carried through, never rejected.
pub proof fn lemma_tlv_roundtrip(rs: Seq<(u8, Seq<u8>)>)
    requires
        forall|k: int| 0 <= k < rs.len() ==> (#[trigger] rs[k]).1.len() <= 255,
    ensures
        spec_tlv_decode(spec_tlv_encode(rs)) == Some(rs),
    decreases rs.len(),
{
    if rs.len() == 0 {
        assert(spec_tlv_encode(rs) =~= Seq::<u8>::empty());
    } else {
        let head = rs[0];
        let buf = spec_tlv_encode(rs);
        let l = head.1.len() as int;
        assert(buf == spec_encode_record(head) + spec_tlv_encode(rs.skip(1)));
        assert(buf.len() >= 2 + l);
        assert(buf[0] == head.0);
        assert(buf[1] == l as u8);
        assert(buf.subrange(2, 2 + l) =~= head.1);
        assert(buf.skip(2 + l) =~= spec_tlv_encode(rs.skip(1)));
        lemma_tlv_roundtrip(rs.skip(1));
        assert(seq![(buf[0], buf.subrange(2, 2 + l))] + rs.skip(1) =~= rs);
    }
}

} // verus!
