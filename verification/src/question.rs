//! Driving the question section: the header's question count says how
//! many names stand at offset 12, each followed by the 4-byte
//! QTYPE/QCLASS pair, which the end offset a name decode returns lets us
//! skip.

use vstd::prelude::*;
use crate::DnsError;
use crate::MAX_PACKET_LEN;
use crate::header::get_qd_count_from_header;
use crate::header::spec_header;
use crate::name::bytes_view;
use crate::name::decode_name;
use crate::name::spec_decode_name;

verus! {

/// The labels of one name joined with `.` separators, as raw bytes.
pub open spec fn spec_dotted(labels: Seq<Seq<u8>>) -> Seq<u8>
    decreases labels.len(),
{
    if labels.len() == 0 {
        Seq::<u8>::empty()
    } else if labels.len() == 1 {
        labels[0]
    } else {
        spec_dotted(labels.drop_last()) + seq![46u8] + labels.last()
    }
}

/// What walking the question section from `off` with `remaining` names
/// still expected returns: each name decoded, rendered dotted, with 4
/// bytes of QTYPE/QCLASS skipped after it; or the first name's error.
pub open spec fn spec_qnames_loop(
    buf: Seq<u8>,
    len: int,
    off: int,
    remaining: int,
    acc: Seq<Seq<u8>>,
) -> Result<Seq<Seq<u8>>, DnsError>
    decreases remaining,
{
    if remaining <= 0 {
        Ok(acc)
    } else {
        match spec_decode_name(buf, len, off) {
            Err(e) => Err(e),
            Ok(p) => spec_qnames_loop(buf, len, p.1 + 4, remaining - 1, acc.push(spec_dotted(p.0))),
        }
    }
}

/// What extracting all question names from the buffer returns: the
/// header's QDCOUNT names decoded starting at offset 12, each as its
/// dotted raw bytes.
pub open spec fn spec_qnames(buf: Seq<u8>, len: int) -> Result<Seq<Seq<u8>>, DnsError> {
    if len < 12 {
        Err(DnsError::TruncatedHeader)
    } else {
        spec_qnames_loop(buf, len, 12, spec_header(buf).qdcount as int, Seq::<Seq<u8>>::empty())
    }
}

/// The labels joined with `.` separators, copied into one byte vector.
fn join_labels(labels: &Vec<Vec<u8>>) -> (r: Vec<u8>)
    ensures
        r@ == spec_dotted(bytes_view(labels@)),
{
    let mut out: Vec<u8> = Vec::new();
    let mut i: usize = 0;
    proof {
        assert(bytes_view(labels@).subrange(0, 0) =~= Seq::<Seq<u8>>::empty());
    }
    while i < labels.len()
        invariant
            i <= labels@.len(),
            out@ == spec_dotted(bytes_view(labels@).subrange(0, i as int)),
        decreases labels@.len() - i,
    {
        let ghost prefix = bytes_view(labels@).subrange(0, i as int);
        if i > 0 {
            out.push(46u8);
        }
        let mut k: usize = 0;
        let ghost mid = out@;
        while k < labels[i].len()
            invariant
                i < labels@.len(),
                k <= labels@[i as int]@.len(),
                out@ == mid + labels@[i as int]@.subrange(0, k as int),
            decreases labels@[i as int]@.len() - k,
        {
            out.push(labels[i][k]);
            proof {
                assert(labels@[i as int]@.subrange(0, k + 1) =~= labels@[i as int]@.subrange(
                    0,
                    k as int,
                ).push(labels@[i as int]@[k as int]));
                assert(mid + labels@[i as int]@.subrange(0, k + 1) =~= (mid + labels@[i as int]@
                    .subrange(0, k as int)).push(labels@[i as int]@[k as int]));
            }
            k = k + 1;
        }
        proof {
            let full = bytes_view(labels@);
            assert(labels@[i as int]@.subrange(0, labels@[i as int]@.len() as int) =~= labels@[i as int]@);
            assert(full.subrange(0, i + 1).drop_last() =~= prefix);
            assert(full.subrange(0, i + 1).last() == full[i as int]);
            assert(full[i as int] == labels@[i as int]@);
            if i == 0 {
                assert(out@ =~= labels@[0]@);
                assert(spec_dotted(full.subrange(0, 1)) == full.subrange(0, 1)[0]);
                assert(full.subrange(0, 1)[0] == labels@[0]@);
            } else {
                assert(out@ =~= spec_dotted(prefix) + seq![46u8] + labels@[i as int]@);
                assert(spec_dotted(full.subrange(0, i + 1)) == spec_dotted(prefix) + seq![46u8]
                    + labels@[i as int]@);
            }
        }
        i = i + 1;
    }
    proof {
        assert(bytes_view(labels@).subrange(0, labels@.len() as int) =~= bytes_view(labels@));
    }
    out
}

/// Extract all question names from the packet: QDCOUNT names starting at
/// offset 12, each returned as its labels joined with `.`, in raw bytes.
/// Fails with `TruncatedHeader` when the logical length is under 12, and
/// with the first name's decode error otherwise.
pub fn get_qnames(packet: &[u8; MAX_PACKET_LEN], logical_length: usize) -> (r: Result<
    Vec<Vec<u8>>,
    DnsError,
>)
    requires
        logical_length <= MAX_PACKET_LEN,
    ensures
        r matches Ok(names) ==> spec_qnames(packet@, logical_length as int) == Ok::<
            Seq<Seq<u8>>,
            DnsError,
        >(bytes_view(names@)),
        r matches Err(e) ==> spec_qnames(packet@, logical_length as int) == Err::<
            Seq<Seq<u8>>,
            DnsError,
        >(e),
{
    if logical_length < 12 {
        return Err(DnsError::TruncatedHeader);
    }
    let qd: u16 = get_qd_count_from_header(packet);
    let mut names: Vec<Vec<u8>> = Vec::new();
    let mut off: usize = 12;
    let mut remaining: u16 = qd;
    proof {
        assert(bytes_view(names@) =~= Seq::<Seq<u8>>::empty());
    }
    while remaining > 0
        invariant
            logical_length <= MAX_PACKET_LEN,
            off <= MAX_PACKET_LEN + 4,
            spec_qnames(packet@, logical_length as int) == spec_qnames_loop(
                packet@,
                logical_length as int,
                off as int,
                remaining as int,
                bytes_view(names@),
            ),
        decreases remaining,
    {
        match decode_name(packet, logical_length, off) {
            Err(e) => {
                return Err(e);
            },
            Ok(d) => {
                let name = join_labels(&d.labels);
                let ghost old_names = bytes_view(names@);
                names.push(name);
                proof {
                    assert(bytes_view(names@) =~= old_names.push(name@));
                }
                off = d.end_offset + 4;
                remaining = remaining - 1;
            },
        }
    }
    Ok(names)
}

} // verus!
