//! Typed messages carried inside frames: a type byte, then the data.
use vstd::prelude::*;

verus! {

/// Type byte of an echo request.
pub const ECHO_TYPE: u8 = 0x01;

/// Type byte of an echo reply.
pub const ECHOED_TYPE: u8 = 0x02;

/// A message: an echo request or an echo reply, each with its data.
pub enum Payload {
    Echo(Vec<u8>),
    Echoed(Vec<u8>),
}

impl Payload {
    /// The type byte that announces this message.
    pub open spec fn spec_type_byte(&self) -> u8 {
        match self {
            Payload::Echo(_) => ECHO_TYPE,
            Payload::Echoed(_) => ECHOED_TYPE,
        }
    }

    /// The data carried by this message.
    pub open spec fn spec_data(&self) -> Seq<u8> {
        match self {
            Payload::Echo(d) => d@,
            Payload::Echoed(d) => d@,
        }
    }

    /// The encoded message: its type byte, then its data.
    pub open spec fn spec_serialize(&self) -> Seq<u8> {
        seq![self.spec_type_byte()] + self.spec_data()
    }

    /// The encoded message.
    pub fn serialize(&self) -> (out: Vec<u8>)
        ensures
            out@ == self.spec_serialize(),
            match self {
                Payload::Echo(d) => out@ == seq![0x01u8] + d@,
                Payload::Echoed(d) => out@ == seq![0x02u8] + d@,
            },
    {
        let type_byte = self.type_byte();
        let mut out: Vec<u8> = Vec::new();
        out.push(type_byte);
        let data = match self {
            Payload::Echo(payload) => payload,
            Payload::Echoed(payload) => payload,
        };
        let n = data.len();
        for i in 0..n
            invariant
                n == data@.len(),
                data@ == self.spec_data(),
                out@ == seq![type_byte] + data@.take(i as int),
        {
            out.push(data[i]);
            assert(data@.take(i + 1) =~= data@.take(i as int).push(data@[i as int]));
        }
        assert(data@.take(n as int) =~= data@);
        out
    }

    fn type_byte(&self) -> (t: u8)
        ensures
            t == self.spec_type_byte(),
    {
        match self {
            Payload::Echo(_) => ECHO_TYPE,
            Payload::Echoed(_) => ECHOED_TYPE,
        }
    }

    /// Decodes a message from its type byte and data: 0x01 gives an echo
    /// request and 0x02 an echo reply, each carrying `data`; any other type
    /// byte gives nothing.
    pub fn deserialize(type_byte: u8, data: Vec<u8>) -> (r: Option<Self>)
        ensures
            match r {
                Some(p) => decode(type_byte, data@) == Some((p.spec_type_byte(), p.spec_data())),
                None => decode(type_byte, data@) is None,
            },
            match r {
                Some(Payload::Echo(d)) => type_byte == 0x01 && d@ == data@,
                Some(Payload::Echoed(d)) => type_byte == 0x02 && d@ == data@,
                None => type_byte != 0x01 && type_byte != 0x02,
            },
    {
        if type_byte == ECHO_TYPE {
            Some(Payload::Echo(data))
        } else if type_byte == ECHOED_TYPE {
            Some(Payload::Echoed(data))
        } else {
            None
        }
    }
}

/// What decoding gives for a type byte and data, as the type byte and data
/// of the decoded message: a known type byte keeps its message type.
pub open spec fn decode(type_byte: u8, data: Seq<u8>) -> Option<(u8, Seq<u8>)> {
    if type_byte == ECHO_TYPE || type_byte == ECHOED_TYPE {
        Some((type_byte, data))
    } else {
        None
    }
}

/// The encoding of a message is its type byte, 0x01 for an echo request
/// and 0x02 for an echo reply, followed by exactly the bytes of its data,
/// in order.
pub proof fn lemma_payload_layout(p: Payload)
    ensures
        match p {
            Payload::Echo(d) => p.spec_serialize() == seq![0x01u8] + d@,
            Payload::Echoed(d) => p.spec_serialize() == seq![0x02u8] + d@,
        },
{
}

/// Decoding the encoding of a message gives back a message of the same
/// type with the same data.
pub proof fn lemma_payload_roundtrip(p: Payload)
    ensures
        ({
            let bytes = p.spec_serialize();
            decode(bytes[0], bytes.drop_first()) == Some((p.spec_type_byte(), p.spec_data()))
        }),
{
    assert(p.spec_serialize().drop_first() =~= p.spec_data());
}

} // verus!
