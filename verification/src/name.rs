//! Decoding one domain name from a message buffer: a sequence of
//! length-prefixed labels, ended by a zero byte or by a compression
//! pointer back into earlier parts of the same buffer. The buffer comes
//! from an untrusted peer, so every read is bounds-checked, pointers may
//! only reference strictly earlier data, and the number of pointer jumps
//! is capped.

use vstd::prelude::*;
use crate::DnsError;
use crate::MAX_PACKET_LEN;

verus! {

/// One decoded domain name: its labels as raw bytes (DNS labels are not
/// guaranteed to be text), and the buffer offset immediately after the
/// name's own encoding, where the caller continues parsing. Following a
/// pointer does not move that offset: it stays right after the 2-byte
/// pointer, however deep the chase went.
#[derive(Debug, PartialEq, Eq)]
pub struct DecodedName {
    pub labels: Vec<Vec<u8>>,
    pub end_offset: usize,
}

/// The label bytes of each element.
pub open spec fn bytes_view(v: Seq<Vec<u8>>) -> Seq<Seq<u8>> {
    v.map_values(|x: Vec<u8>| x@)
}

/// Each element widened to `int`.
pub open spec fn ints_of(v: Seq<usize>) -> Seq<int> {
    v.map_values(|x: usize| x as int)
}

/// The held offset widened to `int`.
pub open spec fn int_of_opt(o: Option<usize>) -> Option<int> {
    match o {
        Some(v) => Some(v as int),
        None => None,
    }
}

/// The end offset once fixed, or the fallback if it is still open.
pub open spec fn end_or(end: Option<int>, fallback: int) -> int {
    match end {
        Some(e) => e,
        None => fallback,
    }
}

/// One step at a time, what decoding a name does from a given state:
/// `cursor` is the next byte to read, `acc` the labels gathered so far,
/// `total` their accumulated encoded octets (1 + length each), `end` the
/// caller-facing end offset once a pointer was followed, `visited` the
/// offsets of the pointers already followed, and `jumps` their count.
///
/// A zero byte ends the name; a byte 192..=255 with its successor forms a
/// pointer whose 14-bit target must lie strictly before the pointer and
/// must not be an offset already used as a pointer; a byte 1..=63 prefixes
/// a literal label of that many bytes; 64..=191 is reserved. A name whose
/// literal labels sum to more than 255 octets is rejected at its end.
pub open spec fn spec_decode_labels(
    buf: Seq<u8>,
    len: int,
    cursor: int,
    acc: Seq<Seq<u8>>,
    total: int,
    end: Option<int>,
    visited: Seq<int>,
    jumps: int,
) -> Result<(Seq<Seq<u8>>, int), DnsError>
    decreases 128 - jumps, len - cursor,
{
    if cursor < 0 || cursor >= len {
        Err(DnsError::TruncatedName)
    } else {
        let b = buf[cursor] as int;
        if b == 0 {
            if total > 255 {
                Err(DnsError::NameTooLong)
            } else {
                Ok((acc, end_or(end, cursor + 1)))
            }
        } else if b >= 192 {
            if cursor + 1 >= len {
                Err(DnsError::TruncatedName)
            } else {
                let target = (b - 192) * 256 + buf[cursor + 1] as int;
                if target >= cursor || visited.contains(target) {
                    Err(DnsError::InvalidPointer)
                } else if jumps + 1 > 128 {
                    Err(DnsError::PointerLoopOrTooDeep)
                } else {
                    spec_decode_labels(
                        buf,
                        len,
                        target,
                        acc,
                        total,
                        Some(end_or(end, cursor + 2)),
                        visited.push(cursor),
                        jumps + 1,
                    )
                }
            }
        } else if b >= 64 {
            Err(DnsError::ReservedLabelType)
        } else {
            if cursor + 1 + b > len {
                Err(DnsError::TruncatedName)
            } else {
                spec_decode_labels(
                    buf,
                    len,
                    cursor + 1 + b,
                    acc.push(buf.subrange(cursor + 1, cursor + 1 + b)),
                    total + 1 + b,
                    end,
                    visited,
                    jumps,
                )
            }
        }
    }
}

/// What decoding one name at `start` in a buffer of logical length `len`
/// returns: the labels and the offset right after the name, or the error.
pub open spec fn spec_decode_name(buf: Seq<u8>, len: int, start: int) -> Result<
    (Seq<Seq<u8>>, int),
    DnsError,
> {
    spec_decode_labels(buf, len, start, Seq::<Seq<u8>>::empty(), 0, None, Seq::<int>::empty(), 0)
}

/// Whether an offset was already used as a pointer.
fn visited_contains(visited: &Vec<usize>, x: usize) -> (r: bool)
    ensures
        r == ints_of(visited@).contains(x as int),
{
    let mut i: usize = 0;
    while i < visited.len()
        invariant
            i <= visited@.len(),
            forall|j: int| 0 <= j < i ==> visited@[j] != x,
        decreases visited@.len() - i,
    {
        if visited[i] == x {
            proof {
                assert(ints_of(visited@)[i as int] == x as int);
            }
            return true;
        }
        i = i + 1;
    }
    proof {
        assert forall|j: int| 0 <= j < ints_of(visited@).len() implies ints_of(
            visited@,
        )[j] != x as int by {
            assert(visited@[j] != x);
        }
    }
    false
}

/// The bytes of the buffer in `from..to`, copied out so the caller keeps
/// no reference into the packet.
fn copy_range(packet: &[u8; MAX_PACKET_LEN], from: usize, to: usize) -> (r: Vec<u8>)
    requires
        from <= to,
        to <= MAX_PACKET_LEN,
    ensures
        r@ == packet@.subrange(from as int, to as int),
{
    let mut out: Vec<u8> = Vec::new();
    let mut i: usize = from;
    while i < to
        invariant
            from <= i <= to,
            to <= MAX_PACKET_LEN,
            out@ == packet@.subrange(from as int, i as int),
        decreases to - i,
    {
        out.push(packet[i]);
        proof {
            assert(packet@.subrange(from as int, i + 1) =~= packet@.subrange(
                from as int,
                i as int,
            ).push(packet@[i as int]));
        }
        i = i + 1;
    }
    out
}

/// Decode exactly one domain name starting at `start_offset`. Returns the
/// labels as raw bytes and the offset right after the name's own encoding,
/// or says exactly how the input is malformed; it never reads at or past
/// `logical_length` and never panics, whatever the bytes hold.
pub fn decode_name(packet: &[u8; MAX_PACKET_LEN], logical_length: usize, start_offset: usize) -> (r:
    Result<DecodedName, DnsError>)
    requires
        logical_length <= MAX_PACKET_LEN,
    ensures
        r matches Ok(d) ==> spec_decode_name(
            packet@,
            logical_length as int,
            start_offset as int,
        ) == Ok::<(Seq<Seq<u8>>, int), DnsError>((bytes_view(d.labels@), d.end_offset as int)),
        r matches Ok(d) ==> d.end_offset <= logical_length && (forall|i: int|
            0 <= i < d.labels@.len() ==> 1 <= (#[trigger] d.labels@[i])@.len() <= 63),
        r matches Err(e) ==> spec_decode_name(
            packet@,
            logical_length as int,
            start_offset as int,
        ) == Err::<(Seq<Seq<u8>>, int), DnsError>(e),
{
    let ghost init = spec_decode_name(packet@, logical_length as int, start_offset as int);
    let mut cursor: usize = start_offset;
    let mut labels: Vec<Vec<u8>> = Vec::new();
    let mut total: usize = 0;
    let mut end: Option<usize> = None;
    let mut visited: Vec<usize> = Vec::new();
    let mut jumps: usize = 0;
    proof {
        assert(bytes_view(labels@) =~= Seq::<Seq<u8>>::empty());
        assert(ints_of(visited@) =~= Seq::<int>::empty());
    }
    while cursor < logical_length
        invariant
            init == spec_decode_name(packet@, logical_length as int, start_offset as int),
            logical_length <= MAX_PACKET_LEN,
            jumps <= 128,
            total as int <= jumps as int * 512 + cursor as int,
            int_of_opt(end) matches Some(e) ==> e <= logical_length as int,
            forall|i: int| 0 <= i < labels@.len() ==> 1 <= (#[trigger] labels@[i])@.len() <= 63,
            init == spec_decode_labels(
                packet@,
                logical_length as int,
                cursor as int,
                bytes_view(labels@),
                total as int,
                int_of_opt(end),
                ints_of(visited@),
                jumps as int,
            ),
        decreases 128 - jumps as int, logical_length as int - cursor as int,
    {
        let b: u8 = packet[cursor];
        if b == 0 {
            let end_val: usize = match end {
                Some(e) => e,
                None => cursor + 1,
            };
            if total > 255 {
                return Err(DnsError::NameTooLong);
            }
            proof {
                assert(init == Ok::<(Seq<Seq<u8>>, int), DnsError>(
                    (bytes_view(labels@), end_val as int),
                ));
            }
            return Ok(DecodedName { labels, end_offset: end_val });
        }
        if b >= 192 {
            if cursor + 1 >= logical_length {
                return Err(DnsError::TruncatedName);
            }
            let b2: u8 = packet[cursor + 1];
            let target: usize = ((b - 192) as usize) * 256 + (b2 as usize);
            if target >= cursor || visited_contains(&visited, target) {
                return Err(DnsError::InvalidPointer);
            }
            if jumps + 1 > 128 {
                return Err(DnsError::PointerLoopOrTooDeep);
            }
            let ghost old_cursor = cursor as int;
            let ghost old_end = int_of_opt(end);
            let ghost old_visited = ints_of(visited@);
            let ghost old_jumps = jumps as int;
            if end.is_none() {
                end = Some(cursor + 2);
            }
            visited.push(cursor);
            jumps = jumps + 1;
            cursor = target;
            proof {
                assert(ints_of(visited@) =~= old_visited.push(old_cursor));
                assert(int_of_opt(end) == Some(end_or(old_end, old_cursor + 2)));
                assert(spec_decode_labels(
                    packet@,
                    logical_length as int,
                    old_cursor,
                    bytes_view(labels@),
                    total as int,
                    old_end,
                    old_visited,
                    old_jumps,
                ) == spec_decode_labels(
                    packet@,
                    logical_length as int,
                    cursor as int,
                    bytes_view(labels@),
                    total as int,
                    int_of_opt(end),
                    ints_of(visited@),
                    jumps as int,
                ));
            }
        } else if b >= 64 {
            return Err(DnsError::ReservedLabelType);
        } else {
            let blen: usize = b as usize;
            if cursor + 1 + blen > logical_length {
                return Err(DnsError::TruncatedName);
            }
            let label: Vec<u8> = copy_range(packet, cursor + 1, cursor + 1 + blen);
            let ghost old_cursor = cursor as int;
            let ghost old_labels = bytes_view(labels@);
            let ghost old_total = total as int;
            labels.push(label);
            total = total + 1 + blen;
            cursor = cursor + 1 + blen;
            proof {
                assert(bytes_view(labels@) =~= old_labels.push(
                    packet@.subrange(old_cursor + 1, old_cursor + 1 + blen as int),
                ));
                assert(spec_decode_labels(
                    packet@,
                    logical_length as int,
                    old_cursor,
                    old_labels,
                    old_total,
                    int_of_opt(end),
                    ints_of(visited@),
                    jumps as int,
                ) == spec_decode_labels(
                    packet@,
                    logical_length as int,
                    cursor as int,
                    bytes_view(labels@),
                    total as int,
                    int_of_opt(end),
                    ints_of(visited@),
                    jumps as int,
                ));
            }
        }
    }
    Err(DnsError::TruncatedName)
}

/// Whether every label is 1 to 63 bytes long, the only lengths a literal
/// label can carry on the wire.
pub open spec fn valid_labels(labels: Seq<Seq<u8>>) -> bool {
    forall|i: int| 0 <= i < labels.len() ==> 1 <= (#[trigger] labels[i]).len() <= 63
}

/// The encoded octets the labels take up as literals: 1 length byte plus
/// the label bytes, for each label.
pub open spec fn label_octets(labels: Seq<Seq<u8>>) -> int
    decreases labels.len(),
{
    if labels.len() == 0 {
        0
    } else {
        1 + labels[0].len() + label_octets(labels.drop_first())
    }
}

/// The literal encoding of a name: each label prefixed by its length,
/// then the zero terminator. No compression.
pub open spec fn spec_encode_name(labels: Seq<Seq<u8>>) -> Seq<u8>
    decreases labels.len(),
{
    if labels.len() == 0 {
        seq![0u8]
    } else {
        seq![labels[0].len() as u8] + labels[0] + spec_encode_name(labels.drop_first())
    }
}

/// The literal encoding is one terminator byte longer than the labels'
/// own octets.
pub proof fn lemma_encode_len(labels: Seq<Seq<u8>>)
    requires
        valid_labels(labels),
    ensures
        spec_encode_name(labels).len() == label_octets(labels) + 1,
    decreases labels.len(),
{
    if labels.len() > 0 {
        assert(valid_labels(labels.drop_first())) by {
            assert(forall|i: int|
                0 <= i < labels.drop_first().len() ==> #[trigger] labels.drop_first()[i] == labels[i + 1]);
        }
        lemma_encode_len(labels.drop_first());
    }
}

proof fn lemma_decode_labels_literal(
    buf: Seq<u8>,
    len: int,
    cursor: int,
    acc: Seq<Seq<u8>>,
    total: int,
    end: Option<int>,
    visited: Seq<int>,
    jumps: int,
    labels: Seq<Seq<u8>>,
)
    requires
        valid_labels(labels),
        0 <= cursor,
        0 <= total,
        total + label_octets(labels) <= 255,
        cursor + spec_encode_name(labels).len() <= len,
        len <= buf.len(),
        buf.subrange(cursor, cursor + spec_encode_name(labels).len()) == spec_encode_name(labels),
    ensures
        spec_decode_labels(buf, len, cursor, acc, total, end, visited, jumps) == Ok::<
            (Seq<Seq<u8>>, int),
            DnsError,
        >((acc + labels, end_or(end, cursor + spec_encode_name(labels).len()))),
    decreases labels.len(),
{
    lemma_encode_len(labels);
    let enc = spec_encode_name(labels);
    assert(forall|k: int| 0 <= k < enc.len() ==> buf[cursor + k] == #[trigger] enc[k]) by {
        assert(forall|k: int|
            0 <= k < enc.len() ==> #[trigger] buf.subrange(cursor, cursor + enc.len())[k] == buf[cursor + k]);
    }
    if labels.len() == 0 {
        assert(enc[0] == 0u8);
        assert(buf[cursor + 0] == enc[0]);
        assert(acc + labels =~= acc);
    } else {
        let l0 = labels[0];
        let rest = labels.drop_first();
        assert(1 <= l0.len() <= 63);
        let b = l0.len() as int;
        assert(valid_labels(rest)) by {
            assert(forall|i: int| 0 <= i < rest.len() ==> #[trigger] rest[i] == labels[i + 1]);
        }
        lemma_encode_len(rest);
        let encr = spec_encode_name(rest);
        assert(enc == seq![l0.len() as u8] + l0 + encr);
        assert(enc[0] == l0.len() as u8);
        assert(buf[cursor + 0] == enc[0]);
        assert(buf[cursor] as int == b);
        assert(buf.subrange(cursor + 1, cursor + 1 + b) =~= l0) by {
            assert(forall|k: int| 0 <= k < b ==> enc[1 + k] == #[trigger] l0[k]);
            assert(forall|k: int|
                0 <= k < b ==> #[trigger] buf.subrange(cursor + 1, cursor + 1 + b)[k] == buf[cursor
                    + 1 + k]);
        }
        let cursor2 = cursor + 1 + b;
        assert(buf.subrange(cursor2, cursor2 + encr.len()) =~= encr) by {
            assert(forall|k: int| 0 <= k < encr.len() ==> enc[1 + b + k] == #[trigger] encr[k]);
            assert(forall|k: int|
                0 <= k < encr.len() ==> #[trigger] buf.subrange(cursor2, cursor2 + encr.len())[k]
                    == buf[cursor2 + k]);
        }
        lemma_decode_labels_literal(
            buf,
            len,
            cursor2,
            acc.push(l0),
            total + 1 + b,
            end,
            visited,
            jumps,
            rest,
        );
        assert(acc.push(l0) + rest =~= acc + labels) by {
            assert(forall|i: int| 0 <= i < rest.len() ==> #[trigger] rest[i] == labels[i + 1]);
        }
        assert(buf.subrange(cursor + 1, cursor + 1 + buf[cursor] as int) == l0);
    }
}

/// Round trip: a name written out purely as literal labels, with no
/// compression, decodes back to exactly those labels, and the returned
/// end offset is the start offset plus the sum of (1 + length) over the
/// labels, plus one for the terminator byte.
pub proof fn lemma_literal_name_round_trip(buf: Seq<u8>, len: int, start: int, labels: Seq<Seq<u8>>)
    requires
        valid_labels(labels),
        label_octets(labels) <= 255,
        0 <= start,
        start + label_octets(labels) + 1 <= len,
        len <= buf.len(),
        buf.subrange(start, start + label_octets(labels) + 1) == spec_encode_name(labels),
    ensures
        spec_decode_name(buf, len, start) == Ok::<(Seq<Seq<u8>>, int), DnsError>(
            (labels, start + label_octets(labels) + 1),
        ),
{
    lemma_encode_len(labels);
    lemma_decode_labels_literal(
        buf,
        len,
        start,
        Seq::<Seq<u8>>::empty(),
        0,
        None,
        Seq::<int>::empty(),
        0,
        labels,
    );
    assert(Seq::<Seq<u8>>::empty() + labels =~= labels);
}

/// A compression pointer must reference strictly earlier data: whenever
/// the decoder reads a two-byte pointer whose target offset equals or
/// exceeds the pointer's own position, it fails with `InvalidPointer`,
/// whatever state it reached that pointer in.
pub proof fn lemma_forward_pointer_rejected(
    buf: Seq<u8>,
    len: int,
    cursor: int,
    acc: Seq<Seq<u8>>,
    total: int,
    end: Option<int>,
    visited: Seq<int>,
    jumps: int,
)
    requires
        0 <= cursor,
        cursor + 1 < len,
        buf[cursor] >= 192,
        (buf[cursor] as int - 192) * 256 + buf[cursor + 1] as int >= cursor,
    ensures
        spec_decode_labels(buf, len, cursor, acc, total, end, visited, jumps) == Err::<
            (Seq<Seq<u8>>, int),
            DnsError,
        >(DnsError::InvalidPointer),
{
}

/// A label length byte in 64..=191 is no legal encoding: the decoder
/// fails with `ReservedLabelType` the moment it reads one, whatever
/// state it reached that byte in.
pub proof fn lemma_reserved_label_rejected(
    buf: Seq<u8>,
    len: int,
    cursor: int,
    acc: Seq<Seq<u8>>,
    total: int,
    end: Option<int>,
    visited: Seq<int>,
    jumps: int,
)
    requires
        0 <= cursor < len,
        64 <= buf[cursor] < 192,
    ensures
        spec_decode_labels(buf, len, cursor, acc, total, end, visited, jumps) == Err::<
            (Seq<Seq<u8>>, int),
            DnsError,
        >(DnsError::ReservedLabelType),
{
}

/// Decoding is a pure function of the buffer bytes, the logical length
/// and the start offset: equal inputs always decode to equal results,
/// and the buffer itself is only ever borrowed read-only.
pub proof fn lemma_decode_name_deterministic(
    buf1: Seq<u8>,
    len1: int,
    start1: int,
    buf2: Seq<u8>,
    len2: int,
    start2: int,
)
    requires
        buf1 == buf2,
        len1 == len2,
        start1 == start2,
    ensures
        spec_decode_name(buf1, len1, start1) == spec_decode_name(buf2, len2, start2),
{
}

} // verus!
