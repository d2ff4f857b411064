//! Every stream opens by saying what it is.
//!
//! In a mesh either side may originate a channel, so streams cannot be
//! distinguished by who opened them. A fixed header on the first bytes lets the
//! accepting side route the stream without any prior agreement.

use std::collections::HashMap;

use vstd::arithmetic::power::pow;
use vstd::prelude::*;
use vstd::string::StringExecFns;

use crate::bytes::{law_each_byte_is_a_digit, law_le_reads_back, le_bytes, le_value, lemma_capacities, lemma_le_bytes_of_value, push_le, read_le};
use crate::net::error::Error;
use crate::net::transport::{PRIORITY_ACTIVATION, PRIORITY_BULK, PRIORITY_CONTROL};
use crate::text::{decimal, join2, join3, number_text};

verus! {

/// The four bytes `LTCS`, lowest first.
pub const MAGIC: u32 = 0x5343_544c;

pub const VERSION: u16 = 1;

pub const HEADER_LEN: usize = 20;

/// Sessions are numbered from 1; 0 means "not tied to a session".
pub const NO_SESSION: u64 = 0;

/// What a stream carries.
#[derive(Clone, Copy, Debug, PartialEq, Eq, Structural)]
pub enum StreamKind {
    /// Plan pushes, provisioning, generation bumps, drain notices.
    Control,
    /// Activation frames for one session across one shard boundary.
    Activation,
    /// Model transfer and probe payloads. Must never delay the others.
    Bulk,
    /// The engine's own protocol, carried between a master and its worker.
    InferenceRpc,
}

impl StreamKind {
    /// The kind's number on the wire.
    pub open spec fn number(self) -> nat {
        match self {
            StreamKind::Control => 1,
            StreamKind::Activation => 2,
            StreamKind::Bulk => 3,
            StreamKind::InferenceRpc => 4,
        }
    }

    /// How messages name the kind.
    pub open spec fn shown(self) -> Seq<char> {
        match self {
            StreamKind::Control => "Control"@,
            StreamKind::Activation => "Activation"@,
            StreamKind::Bulk => "Bulk"@,
            StreamKind::InferenceRpc => "InferenceRpc"@,
        }
    }

    /// How messages name the kind.
    pub fn name(self) -> (out: &'static str)
        ensures
            out@ == self.shown(),
    {
        match self {
            StreamKind::Control => "Control",
            StreamKind::Activation => "Activation",
            StreamKind::Bulk => "Bulk",
            StreamKind::InferenceRpc => "InferenceRpc",
        }
    }

    /// The kind's number on the wire.
    pub fn to_wire(self) -> (out: u16)
        ensures
            out == self.number(),
    {
        match self {
            StreamKind::Control => 1,
            StreamKind::Activation => 2,
            StreamKind::Bulk => 3,
            StreamKind::InferenceRpc => 4,
        }
    }

    /// The kind with a number.
    pub fn from_wire(value: u16) -> (out: Result<Self, Error>)
        ensures
            match out {
                Ok(kind) => kind.number() == value,
                Err(Error::StreamHeader(said)) => {
                    &&& !(1 <= value <= 4)
                    &&& said@ == "unknown stream kind "@ + decimal(value as nat)
                },
                Err(_) => false,
            },
    {
        match value {
            1 => Ok(StreamKind::Control),
            2 => Ok(StreamKind::Activation),
            3 => Ok(StreamKind::Bulk),
            4 => Ok(StreamKind::InferenceRpc),
            other => Err(
                Error::StreamHeader(
                    join2("unknown stream kind ", number_text(other as u128).as_str()),
                ),
            ),
        }
    }

    /// The priority of the kind's streams.
    pub open spec fn rank(self) -> int {
        match self {
            StreamKind::Control => PRIORITY_CONTROL as int,
            StreamKind::Activation => PRIORITY_ACTIVATION as int,
            StreamKind::Bulk => PRIORITY_BULK as int,
            StreamKind::InferenceRpc => PRIORITY_ACTIVATION as int,
        }
    }

    /// The priority of the kind's streams.
    pub fn priority(self) -> (out: i32)
        ensures
            out == self.rank(),
    {
        match self {
            StreamKind::Control => PRIORITY_CONTROL,
            StreamKind::Activation => PRIORITY_ACTIVATION,
            StreamKind::Bulk => PRIORITY_BULK,
            StreamKind::InferenceRpc => PRIORITY_ACTIVATION,
        }
    }
}

/// Bulk transfers never outrank activations, nor these control messages.
pub proof fn law_bulk_never_outranks_activation()
    ensures
        StreamKind::Control.rank() > StreamKind::Activation.rank(),
        StreamKind::Activation.rank() > StreamKind::Bulk.rank(),
        forall|kind: StreamKind| #[trigger] kind.rank() >= StreamKind::Bulk.rank(),
{
}

/// What a stream says of itself when it opens.
#[derive(Clone, Copy, Debug, PartialEq, Eq, Structural)]
pub struct StreamHeader {
    pub kind: StreamKind,
    pub session: u64,
    /// The fence of a plan. Checked when the stream opens, so a stale channel
    /// dies before it carries anything rather than per frame.
    pub generation: u32,
}

/// The header that bytes declare, or what is said against them.
pub open spec fn declared(bytes: Seq<u8>) -> Result<StreamHeader, Seq<char>> {
    let version = le_value(bytes.subrange(4, 6));
    let kind = le_value(bytes.subrange(6, 8));
    let session = le_value(bytes.subrange(8, 16)) as u64;
    let generation = le_value(bytes.subrange(16, 20)) as u32;
    if le_value(bytes.subrange(0, 4)) != MAGIC {
        Err("not a lattice stream"@)
    } else if version != VERSION {
        Err("stream protocol v"@ + decimal(version) + ", this device speaks v"@ + decimal(
            VERSION as nat,
        ))
    } else if kind == 1 {
        Ok(StreamHeader { kind: StreamKind::Control, session, generation })
    } else if kind == 2 {
        Ok(StreamHeader { kind: StreamKind::Activation, session, generation })
    } else if kind == 3 {
        Ok(StreamHeader { kind: StreamKind::Bulk, session, generation })
    } else if kind == 4 {
        Ok(StreamHeader { kind: StreamKind::InferenceRpc, session, generation })
    } else {
        Err("unknown stream kind "@ + decimal(kind))
    }
}

impl StreamHeader {
    /// The header's bytes.
    pub open spec fn encoded(self) -> Seq<u8> {
        le_bytes(MAGIC as nat, 4) + le_bytes(VERSION as nat, 2) + le_bytes(self.kind.number(), 2)
            + le_bytes(self.session as nat, 8) + le_bytes(self.generation as nat, 4)
    }

    /// The header of a control stream.
    pub fn control() -> (out: Self)
        ensures
            out == (StreamHeader {
                kind: StreamKind::Control,
                session: NO_SESSION,
                generation: 0,
            }),
    {
        StreamHeader { kind: StreamKind::Control, session: NO_SESSION, generation: 0 }
    }

    /// The header's bytes.
    pub fn encode(&self) -> (out: [u8; HEADER_LEN])
        ensures
            out@ == self.encoded(),
    {
        let mut bytes: Vec<u8> = Vec::new();
        push_le(&mut bytes, MAGIC as u64, 4);
        push_le(&mut bytes, VERSION as u64, 2);
        push_le(&mut bytes, self.kind.to_wire() as u64, 2);
        push_le(&mut bytes, self.session, 8);
        push_le(&mut bytes, self.generation as u64, 4);
        assert(bytes@ =~= self.encoded());
        proof {
            lemma_encoded_len(*self);
        }
        let mut out: [u8; HEADER_LEN] = [0;HEADER_LEN];
        for i in 0..HEADER_LEN
            invariant
                bytes@.len() == HEADER_LEN,
                forall|j: int| 0 <= j < i ==> out@[j] == bytes@[j],
        {
            out[i] = bytes[i];
        }
        assert(out@ =~= bytes@);
        out
    }

    /// The header that bytes declare.
    pub fn decode(bytes: &[u8; HEADER_LEN]) -> (out: Result<Self, Error>)
        ensures
            match declared(bytes@) {
                Ok(header) => out matches Ok(h) && h == header,
                Err(said) => out matches Err(Error::StreamHeader(s)) && s@ == said,
            },
    {
        proof {
            lemma_capacities();
        }
        let bytes = bytes.as_slice();
        if read_le(bytes, 0, 4) != MAGIC as u64 {
            return Err(Error::StreamHeader("not a lattice stream".to_owned()));
        }
        let version: u64 = read_le(bytes, 4, 6);
        if version != VERSION as u64 {
            let mut said = join3(
                "stream protocol v",
                number_text(version as u128).as_str(),
                ", this device speaks v",
            );
            said.append(number_text(VERSION as u128).as_str());
            return Err(Error::StreamHeader(said));
        }
        let kind = StreamKind::from_wire(read_le(bytes, 6, 8) as u16)?;
        let session: u64 = read_le(bytes, 8, 16);
        let generation: u32 = read_le(bytes, 16, 20) as u32;
        Ok(StreamHeader { kind, session, generation })
    }
}

proof fn lemma_encoded_len(header: StreamHeader)
    ensures
        header.encoded().len() == HEADER_LEN,
{
    lemma_capacities();
    law_le_reads_back(MAGIC as nat, 4);
    law_le_reads_back(VERSION as nat, 2);
    law_le_reads_back(header.kind.number(), 2);
    law_le_reads_back(header.session as nat, 8);
    law_le_reads_back(header.generation as nat, 4);
}

/// A header is read back as it was written.
pub proof fn law_header_reads_back(header: StreamHeader)
    ensures
        header.encoded().len() == HEADER_LEN,
        declared(header.encoded()) == Ok::<StreamHeader, Seq<char>>(header),
{
    lemma_encoded_len(header);
    lemma_capacities();
    law_le_reads_back(MAGIC as nat, 4);
    law_le_reads_back(VERSION as nat, 2);
    law_le_reads_back(header.kind.number(), 2);
    law_le_reads_back(header.session as nat, 8);
    law_le_reads_back(header.generation as nat, 4);
    let bytes = header.encoded();
    assert(bytes.subrange(0, 4) =~= le_bytes(MAGIC as nat, 4));
    assert(bytes.subrange(4, 6) =~= le_bytes(VERSION as nat, 2));
    assert(bytes.subrange(6, 8) =~= le_bytes(header.kind.number(), 2));
    assert(bytes.subrange(8, 16) =~= le_bytes(header.session as nat, 8));
    assert(bytes.subrange(16, 20) =~= le_bytes(header.generation as nat, 4));
}

/// The greatest generation that each session has opened a stream with on a
/// connection. A session's generation is its master's to raise, and says nothing
/// of another session.
pub struct Fence {
    pub seen: HashMap<u64, u32>,
}

/// Whether a stream is stale: a greater generation was seen for its session. One
/// that is not tied to a session never is.
pub open spec fn stale(seen: Map<u64, u32>, header: StreamHeader) -> bool {
    &&& header.session != NO_SESSION
    &&& seen.contains_key(header.session)
    &&& seen[header.session] > header.generation
}

/// What was seen once a stream has opened or was refused.
pub open spec fn fenced(seen: Map<u64, u32>, header: StreamHeader) -> Map<u64, u32> {
    if header.session == NO_SESSION || stale(seen, header) {
        seen
    } else {
        seen.insert(header.session, header.generation)
    }
}

/// What is said of a stale stream.
pub open spec fn stale_shown(header: StreamHeader, latest: u32) -> Seq<char> {
    "stale stream: session "@ + decimal(header.session as nat) + " is at generation "@ + decimal(
        latest as nat,
    ) + ", not "@ + decimal(header.generation as nat)
}

impl Fence {
    /// The greatest generation seen, by session.
    pub open spec fn view(self) -> Map<u64, u32> {
        self.seen@
    }

    /// Nothing seen yet.
    pub fn new() -> (out: Self)
        ensures
            out@ == Map::<u64, u32>::empty(),
    {
        Fence { seen: HashMap::new() }
    }

    /// Refuses a stream of a generation behind one already seen for its session,
    /// before it carries anything. A stream that is not tied to a session is
    /// never refused and leaves no trace.
    pub fn check(&mut self, header: &StreamHeader) -> (out: Result<(), Error>)
        ensures
            final(self)@ == fenced(old(self)@, *header),
            match out {
                Ok(()) => !stale(old(self)@, *header),
                Err(Error::StreamHeader(said)) => {
                    &&& stale(old(self)@, *header)
                    &&& said@ == stale_shown(*header, old(self)@[header.session])
                },
                Err(_) => false,
            },
    {
        broadcast use vstd::std_specs::hash::group_hash_axioms;

        if header.session == NO_SESSION {
            return Ok(());
        }
        if let Some(latest) = self.seen.get(&header.session) {
            let latest: u32 = *latest;
            if latest > header.generation {
                let mut said = join3(
                    "stale stream: session ",
                    number_text(header.session as u128).as_str(),
                    " is at generation ",
                );
                said.append(number_text(latest as u128).as_str());
                said.append(", not ");
                said.append(number_text(header.generation as u128).as_str());
                return Err(Error::StreamHeader(said));
            }
        }
        self.seen.insert(header.session, header.generation);
        Ok(())
    }
}

/// What was seen after some streams, in their order.
pub open spec fn fenced_all(seen: Map<u64, u32>, headers: Seq<StreamHeader>) -> Map<u64, u32>
    decreases headers.len(),
{
    if headers.len() == 0 {
        seen
    } else {
        fenced(fenced_all(seen, headers.drop_last()), headers.last())
    }
}

/// What was seen of a session never falls.
proof fn lemma_fence_rises(seen: Map<u64, u32>, headers: Seq<StreamHeader>, session: u64)
    ensures
        seen.contains_key(session) ==> {
            &&& fenced_all(seen, headers).contains_key(session)
            &&& fenced_all(seen, headers)[session] >= seen[session]
        },
    decreases headers.len(),
{
    if headers.len() > 0 {
        lemma_fence_rises(seen, headers.drop_last(), session);
    }
}

/// A stale stream never opens: once a session has opened a stream, then after
/// whatever other streams, every stream of that session with a lower generation
/// is refused, and one with a generation no lower than all that its session
/// opened is not.
pub proof fn law_stale_streams_stay_out(
    seen: Map<u64, u32>,
    opened: StreamHeader,
    between: Seq<StreamHeader>,
    late: StreamHeader,
)
    requires
        opened.session != NO_SESSION,
        !stale(seen, opened),
        late.session == opened.session,
    ensures
        late.generation < opened.generation ==> stale(
            fenced_all(fenced(seen, opened), between),
            late,
        ),
        (late.generation >= opened.generation && forall|i: int|
            0 <= i < between.len() && (#[trigger] between[i]).session == late.session
                ==> late.generation >= between[i].generation) ==> !stale(
            fenced_all(fenced(seen, opened), between),
            late,
        ),
    decreases between.len(),
{
    lemma_fence_rises(fenced(seen, opened), between, opened.session);
    if between.len() > 0 {
        law_stale_streams_stay_out(seen, opened, between.drop_last(), late);
        if forall|i: int|
            0 <= i < between.len() && (#[trigger] between[i]).session == late.session
                ==> late.generation >= between[i].generation {
            assert forall|i: int|
                0 <= i < between.len() - 1 && (#[trigger] between.drop_last()[i]).session
                    == late.session implies late.generation >= between.drop_last()[i].generation by {
                assert(between[i] == between.drop_last()[i]);
            }
            assert(between[between.len() - 1] == between.last());
        }
    }
}

/// Streams that are not tied to a session always open, and say nothing of any
/// session.
pub proof fn law_untied_streams_always_open(seen: Map<u64, u32>, header: StreamHeader)
    requires
        header.session == NO_SESSION,
    ensures
        !stale(seen, header),
        fenced(seen, header) == seen,
{
}

/// The streams of one session say nothing of another's.
pub proof fn law_sessions_are_fenced_apart(seen: Map<u64, u32>, header: StreamHeader, other: u64)
    requires
        other != header.session,
    ensures
        fenced(seen, header).contains_key(other) == seen.contains_key(other),
        fenced(seen, header)[other] == seen[other],
{
}

/// A header is twenty bytes: `LTCS`, version 1, the kind's number, the session and
/// the generation, each with its least byte first.
pub proof fn law_header_layout(header: StreamHeader, i: int)
    ensures
        header.encoded().len() == 20,
        0 <= i < 4 ==> header.encoded()[i] as int == "LTCS"@[i] as int,
        header.encoded()[4] == 1 && header.encoded()[5] == 0,
        header.encoded()[6] == match header.kind {
            StreamKind::Control => 1u8,
            StreamKind::Activation => 2u8,
            StreamKind::Bulk => 3u8,
            StreamKind::InferenceRpc => 4u8,
        },
        header.encoded()[7] == 0,
        0 <= i < 8 ==> header.encoded()[8 + i] as int == header.session as int / pow(256, i as nat)
            % 256,
        0 <= i < 4 ==> header.encoded()[16 + i] as int == header.generation as int / pow(
            256,
            i as nat,
        ) % 256,
{
    reveal_strlit("LTCS");
    assert(pow(256, 0) == 1 && pow(256, 1) == 0x100 && pow(256, 2) == 0x1_0000 && pow(256, 3)
        == 0x100_0000) by {
        reveal_with_fuel(pow, 4);
    }
    let n = header.kind.number();
    law_each_byte_is_a_digit(MAGIC as nat, 4, 0);
    law_each_byte_is_a_digit(MAGIC as nat, 4, 1);
    law_each_byte_is_a_digit(MAGIC as nat, 4, 2);
    law_each_byte_is_a_digit(MAGIC as nat, 4, 3);
    law_each_byte_is_a_digit(VERSION as nat, 2, 0);
    law_each_byte_is_a_digit(VERSION as nat, 2, 1);
    law_each_byte_is_a_digit(n, 2, 0);
    law_each_byte_is_a_digit(n, 2, 1);
    law_each_byte_is_a_digit(header.session as nat, 8, 0);
    law_each_byte_is_a_digit(header.generation as nat, 4, 0);
    let magic = le_bytes(MAGIC as nat, 4);
    assert(magic[0] == 0x4c && magic[1] == 0x54 && magic[2] == 0x43 && magic[3] == 0x53);
    if 0 <= i < 4 {
        assert(header.encoded()[i] == magic[i]);
    }
    if 0 <= i < 8 {
        law_each_byte_is_a_digit(header.session as nat, 8, i);
    }
    if 0 <= i < 4 {
        law_each_byte_is_a_digit(header.generation as nat, 4, i);
    }
}

/// Twenty bytes are a header exactly where they are what that header is written as.
pub proof fn law_only_written_headers_are_read(bytes: Seq<u8>, header: StreamHeader)
    requires
        bytes.len() == 20,
    ensures
        declared(bytes) == Ok::<StreamHeader, Seq<char>>(header) <==> bytes == header.encoded(),
{
    law_header_reads_back(header);
    if declared(bytes) == Ok::<StreamHeader, Seq<char>>(header) {
        let (magic, version, kind, session, generation) = (
            bytes.subrange(0, 4),
            bytes.subrange(4, 6),
            bytes.subrange(6, 8),
            bytes.subrange(8, 16),
            bytes.subrange(16, 20),
        );
        lemma_capacities();
        lemma_le_bytes_of_value(magic);
        lemma_le_bytes_of_value(version);
        lemma_le_bytes_of_value(kind);
        lemma_le_bytes_of_value(session);
        lemma_le_bytes_of_value(generation);
        assert(bytes =~= magic + version + kind + session + generation);
    }
}

/// A stream is stale exactly where its session is one, was seen, and was seen last
/// with a greater generation; a stream that is not, of a session, is what was seen of
/// it last.
pub proof fn law_what_is_stale(seen: Map<u64, u32>, header: StreamHeader)
    ensures
        !seen.contains_key(header.session) ==> !stale(seen, header),
        header.session > 0 && seen.contains_key(header.session) ==> (stale(seen, header)
            <==> header.generation < seen[header.session]),
        header.session > 0 && !stale(seen, header) ==> fenced(seen, header).contains_key(
            header.session,
        ) && fenced(seen, header)[header.session] == header.generation,
        stale(seen, header) ==> fenced(seen, header) == seen,
{
}

}
