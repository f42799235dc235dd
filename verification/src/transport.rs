//! Frames: messages on a stream of bytes, each after its length.

use vstd::prelude::*;
use vstd::string::*;

use crate::error::HierKvGatewayError;
use crate::ids::InstanceId;
use crate::member;
use crate::member::{ClusterMember, MemberList, MembersView, Sieve};
use crate::text;
use crate::text::decimal_text;

verus! {

/// Longest payload of a frame, in bytes.
pub const MAX_FRAME_SIZE: usize = 4_194_304;

/// The number that four bytes stand for, the most significant first.
pub open spec fn big_endian(bytes: Seq<u8>) -> nat {
    (bytes[0] * 0x100_0000 + bytes[1] * 0x1_0000 + bytes[2] * 0x100 + bytes[3]) as nat
}

/// The text of the error for a payload that is too long.
pub open spec fn too_large_text(len: nat) -> Seq<char> {
    "TcpClusterTransport: frame too large ("@ + text::decimal(len) + " > "@ + text::decimal(
        MAX_FRAME_SIZE as nat,
    ) + ")"@
}

/// The text of the error for a length that no frame has.
pub open spec fn bad_length_text(len: nat) -> Seq<char> {
    "TcpClusterTransport: invalid frame length "@ + text::decimal(len) + " (max "@ + text::decimal(
        MAX_FRAME_SIZE as nat,
    ) + ")"@
}

fn length_bytes(len: u32) -> (bytes: Vec<u8>)
    ensures
        bytes@.len() == 4,
        big_endian(bytes@) == len,
{
    let mut bytes: Vec<u8> = Vec::new();
    bytes.push((len / 0x100_0000) as u8);
    bytes.push((len / 0x1_0000 % 0x100) as u8);
    bytes.push((len / 0x100 % 0x100) as u8);
    bytes.push((len % 0x100) as u8);
    bytes
}

/// The frame of a payload: its length in four bytes, the most significant first, and the payload.
/// One that is too long is refused.
pub fn encode_frame(payload: &[u8]) -> (frame: Result<Vec<u8>, HierKvGatewayError>)
    ensures
        match frame {
            Ok(bytes) => {
                &&& payload@.len() <= MAX_FRAME_SIZE
                &&& bytes@.len() == 4 + payload@.len()
                &&& big_endian(bytes@.take(4)) == payload@.len()
                &&& bytes@.skip(4) == payload@
            },
            Err(HierKvGatewayError::Internal(detail)) => payload@.len() > MAX_FRAME_SIZE
                && detail@ == too_large_text(payload@.len()),
            Err(_) => false,
        },
        frame is Ok <==> fits(payload@),
        frame matches Ok(bytes) ==> is_frame_of(bytes@, payload@),
{
    if payload.len() > MAX_FRAME_SIZE {
        let mut detail: String = "TcpClusterTransport: frame too large (".to_owned();
        detail.append(decimal_text(payload.len() as u64).as_str());
        detail.append(" > ");
        detail.append(decimal_text(MAX_FRAME_SIZE as u64).as_str());
        detail.append(")");
        return Err(HierKvGatewayError::Internal(detail));
    }
    let mut frame: Vec<u8> = length_bytes(payload.len() as u32);
    let ghost head = frame@;
    let mut i: usize = 0;
    while i < payload.len()
        invariant
            i <= payload@.len(),
            head.len() == 4,
            frame@ == head + payload@.take(i as int),
        decreases payload@.len() - i,
    {
        frame.push(payload[i]);
        assert(frame@ =~= head + payload@.take(i + 1));
        i = i + 1;
    }
    proof {
        assert(frame@.take(4) =~= head);
        assert(frame@.skip(4) =~= payload@);
    }
    Ok(frame)
}

/// The length of the payload that follows a header. A length of zero, or one that is too long, is
/// refused.
pub fn frame_length(header: &[u8]) -> (len: Result<usize, HierKvGatewayError>)
    requires
        header@.len() == 4,
    ensures
        match len {
            Ok(n) => n == big_endian(header@) && 0 < n <= MAX_FRAME_SIZE,
            Err(HierKvGatewayError::Internal(detail)) => (big_endian(header@) == 0 || big_endian(
                header@,
            ) > MAX_FRAME_SIZE) && detail@ == bad_length_text(big_endian(header@)),
            Err(_) => false,
        },
        len is Ok <==> announced(header@) is Some,
        len matches Ok(n) ==> announced(header@) == Some(n as nat),
{
    let len: u64 = header[0] as u64 * 0x100_0000 + header[1] as u64 * 0x1_0000 + header[2] as u64
        * 0x100 + header[3] as u64;
    if len == 0 || len > MAX_FRAME_SIZE as u64 {
        let mut detail: String = "TcpClusterTransport: invalid frame length ".to_owned();
        detail.append(decimal_text(len).as_str());
        detail.append(" (max ");
        detail.append(decimal_text(MAX_FRAME_SIZE as u64).as_str());
        detail.append(")");
        return Err(HierKvGatewayError::Internal(detail));
    }
    Ok(len as usize)
}

/// A reader takes the length of every frame that a writer makes, unless its payload is empty, and
/// finds the payload behind it.
pub proof fn a_frame_is_read_back(payload: Seq<u8>, frame: Seq<u8>)
    requires
        0 < payload.len() <= MAX_FRAME_SIZE,
        frame.len() == 4 + payload.len(),
        big_endian(frame.take(4)) == payload.len(),
        frame.skip(4) == payload,
    ensures
        0 < big_endian(frame.take(4)) <= MAX_FRAME_SIZE,
        frame.skip(4).take(big_endian(frame.take(4)) as int) == payload,
{
    assert(frame.skip(4).take(payload.len() as int) =~= payload);
}

/// The addresses that a message to all members goes to: those of the members that are alive, other
/// than the sender itself once it is known.
pub fn broadcast_targets(members: &MemberList, own: Option<&InstanceId>) -> (targets: Vec<
    ClusterMember,
>)
    requires
        members.wf(),
    ensures
        member::lists(
            targets@,
            match own {
                Some(id) => member::those(
                    member::those(members@, member::alive()),
                    member::other_than(id@),
                ),
                None => member::those(members@, member::alive()),
            },
        ),
{
    let alive: Vec<ClusterMember> = members.alive_members();
    let ghost known: MembersView = member::those(members@, member::alive());
    assert(member::lists(alive@, known));
    match own {
        Some(id) => {
            let sieve: Sieve = Sieve::OtherThan(id.clone());
            sieve.sift(&alive)
        },
        None => alive,
    }
}

/// The four bytes of a length are its digits in base 256, the highest first.
pub proof fn a_length_is_written_highest_byte_first(bytes: Seq<u8>)
    requires
        bytes.len() == 4,
    ensures
        big_endian(bytes) % 256 == bytes[3],
        big_endian(bytes) / 256 % 256 == bytes[2],
        big_endian(bytes) / 65536 % 256 == bytes[1],
        big_endian(bytes) / 16777216 == bytes[0],
{
}

proof fn lemma_same_decimal(a: nat, b: nat)
    requires
        text::decimal(a) == text::decimal(b),
    ensures
        a == b,
{
    text::a_decimal_stands_for_its_number(a);
    text::a_decimal_stands_for_its_number(b);
}

/// What is said of a frame tells its length: of two lengths different things are said.
pub proof fn what_is_said_tells_the_length(a: nat, b: nat)
    requires
        a != b,
    ensures
        too_large_text(a) != too_large_text(b),
        bad_length_text(a) != bad_length_text(b),
{
    let digits = text::decimal(a);
    let others = text::decimal(b);
    if too_large_text(a) == too_large_text(b) {
        let head = "TcpClusterTransport: frame too large ("@;
        let tail = " > "@ + text::decimal(MAX_FRAME_SIZE as nat) + ")"@;
        assert(too_large_text(a) =~= head + digits + tail);
        assert(too_large_text(b) =~= head + others + tail);
        assert(digits.len() == others.len());
        assert(too_large_text(a).subrange(head.len() as int, (head.len() + digits.len()) as int)
            =~= digits);
        assert(too_large_text(b).subrange(head.len() as int, (head.len() + others.len()) as int)
            =~= others);
        lemma_same_decimal(a, b);
    }
    if bad_length_text(a) == bad_length_text(b) {
        let head = "TcpClusterTransport: invalid frame length "@;
        let tail = " (max "@ + text::decimal(MAX_FRAME_SIZE as nat) + ")"@;
        assert(bad_length_text(a) =~= head + digits + tail);
        assert(bad_length_text(b) =~= head + others + tail);
        assert(digits.len() == others.len());
        assert(bad_length_text(a).subrange(head.len() as int, (head.len() + digits.len()) as int)
            =~= digits);
        assert(bad_length_text(b).subrange(head.len() as int, (head.len() + others.len()) as int)
            =~= others);
        lemma_same_decimal(a, b);
    }
}

/// Whether a payload fits in a frame.
pub open spec fn fits(payload: Seq<u8>) -> bool {
    payload.len() <= MAX_FRAME_SIZE
}

/// Whether some bytes are the frame of a payload: its length, and the payload.
pub open spec fn is_frame_of(frame: Seq<u8>, payload: Seq<u8>) -> bool {
    &&& frame.len() == 4 + payload.len()
    &&& big_endian(frame.take(4)) == payload.len()
    &&& frame.skip(4) == payload
}

/// The length that a header announces, if a frame can have it.
pub open spec fn announced(header: Seq<u8>) -> Option<nat> {
    if 0 < big_endian(header) <= MAX_FRAME_SIZE {
        Some(big_endian(header))
    } else {
        None
    }
}

/// The header of a frame announces the length of its payload, and what is behind the header is the
/// payload, if there is any and it fits; the header of an empty one, or of a longer one, announces none.
pub proof fn a_header_announces_its_payload(frame: Seq<u8>, payload: Seq<u8>)
    requires
        is_frame_of(frame, payload),
    ensures
        0 < payload.len() <= 4 * 1024 * 1024 ==> announced(frame.take(4)) == Some(payload.len())
            && frame.skip(4) == payload,
        payload.len() == 0 || payload.len() > 4 * 1024 * 1024 ==> announced(frame.take(4)) is None,
        fits(payload) <==> payload.len() <= 4 * 1024 * 1024,
{
}

} // verus!
