//! Length-prefixed framing: `[u32 LE length][payload bytes]`.

use vstd::prelude::*;

use crate::text;

verus! {

/// Width of the length prefix in bytes.
pub const LENGTH_PREFIX_BYTES: usize = 4;

/// Hard cap on payload size to keep a misbehaving peer from pushing the other side
/// into multi-gigabyte allocations.
pub const MAX_FRAME_BYTES: usize = 4_194_304;

/// Errors that can occur during framing and unframing.
#[derive(Debug)]
pub enum FrameError {
    TooLarge { len: usize },
    /// The payload could not be encoded; what the codec said.
    Encode(String),
    /// The payload could not be decoded; what the codec said.
    Decode(String),
}

impl FrameError {
    /// The error in words.
    pub open spec fn text(self) -> Seq<char> {
        match self {
            FrameError::TooLarge { len } => "frame too large: "@ + text::decimal(len as nat)
                + " bytes (max "@ + text::decimal(MAX_FRAME_BYTES as nat) + ")"@,
            FrameError::Encode(why) => "encode failed: "@ + why@,
            FrameError::Decode(why) => "decode failed: "@ + why@,
        }
    }

    /// The error in words.
    pub fn to_text(&self) -> (s: String)
        ensures
            s@ == self.text(),
    {
        let mut s = String::new();
        match self {
            FrameError::TooLarge { len } => {
                s.append("frame too large: ");
                text::push_decimal(&mut s, *len as u64);
                s.append(" bytes (max ");
                text::push_decimal(&mut s, MAX_FRAME_BYTES as u64);
                s.append(")");
            },
            FrameError::Encode(why) => {
                s.append("encode failed: ");
                s.append(why.as_str());
            },
            FrameError::Decode(why) => {
                s.append("decode failed: ");
                s.append(why.as_str());
            },
        }
        assert(s@ =~= self.text());
        s
    }
}

/// The number that four bytes hold, least significant first.
pub open spec fn le_value(b: Seq<u8>) -> int {
    b[0] + 256 * b[1] + 65536 * b[2] + 16777216 * b[3]
}

/// The four bytes of `n`, least significant first.
pub open spec fn le_bytes(n: int) -> Seq<u8> {
    seq![
        (n % 256) as u8,
        (n / 256 % 256) as u8,
        (n / 65536 % 256) as u8,
        (n / 16777216 % 256) as u8,
    ]
}

/// Writing a number as four bytes and reading it gives the number back.
pub proof fn le_round_trip(n: int)
    requires
        0 <= n <= u32::MAX,
    ensures
        le_value(le_bytes(n)) == n,
{
}

/// A payload with its length in front.
pub open spec fn framed(payload: Seq<u8>) -> Seq<u8> {
    le_bytes(payload.len() as int) + payload
}

fn push_length(out: &mut Vec<u8>, len: u32)
    ensures
        final(out)@ == old(out)@ + le_bytes(len as int),
{
    out.push((len % 256) as u8);
    out.push((len / 256 % 256) as u8);
    out.push((len / 65536 % 256) as u8);
    out.push((len / 16777216 % 256) as u8);
    assert(out@ =~= old(out)@ + le_bytes(len as int));
}

/// Frame an encoded payload, ready to write in one shot.
pub fn encode(payload: &[u8]) -> (r: Result<Vec<u8>, FrameError>)
    ensures
        match r {
            Ok(out) => payload@.len() <= MAX_FRAME_BYTES && out@ == framed(payload@),
            Err(e) => payload@.len() > MAX_FRAME_BYTES && e == (FrameError::TooLarge {
                len: payload@.len() as usize,
            }),
        },
{
    if payload.len() > MAX_FRAME_BYTES {
        return Err(FrameError::TooLarge { len: payload.len() });
    }
    let mut out: Vec<u8> = Vec::new();
    push_length(&mut out, payload.len() as u32);
    out.extend_from_slice(payload);
    assert(out@ =~= framed(payload@));
    Ok(out)
}

/// Parse the payload length out of a 4-byte prefix, applying the cap. The value is
/// the number of payload bytes the caller still needs to read.
pub fn parse_length_prefix(prefix: [u8; 4]) -> (r: Result<usize, FrameError>)
    ensures
        match r {
            Ok(len) => len == le_value(prefix@) && len <= MAX_FRAME_BYTES,
            Err(e) => le_value(prefix@) > MAX_FRAME_BYTES && e == (FrameError::TooLarge {
                len: le_value(prefix@) as usize,
            }),
        },
{
    let len: usize = prefix[0] as usize + 256 * (prefix[1] as usize) + 65536 * (prefix[2] as usize)
        + 16777216 * (prefix[3] as usize);
    if len > MAX_FRAME_BYTES {
        return Err(FrameError::TooLarge { len });
    }
    Ok(len)
}

// ---------------------------------------------------------------------------
// Event logs
// ---------------------------------------------------------------------------

/// Appends a payload to an event log. A log has no cap but that of the prefix.
pub fn append_to_log(log: &mut Vec<u8>, payload: &[u8])
    requires
        payload@.len() <= u32::MAX,
    ensures
        final(log)@ == old(log)@ + framed(payload@),
{
    push_length(log, payload.len() as u32);
    log.extend_from_slice(payload);
    assert(log@ =~= old(log)@ + framed(payload@));
}

/// The payloads of an event log, or `None` where the last one is cut short. A cut
/// prefix at the very end counts as the end of the log.
pub open spec fn log_payloads(log: Seq<u8>) -> Option<Seq<Seq<u8>>>
    decreases log.len(),
{
    if log.len() < 4 {
        Some(Seq::empty())
    } else {
        let len = le_value(log);
        if log.len() < 4 + len {
            None
        } else {
            match log_payloads(log.skip(4 + len)) {
                None => None,
                Some(rest) => Some(seq![log.subrange(4, 4 + len)] + rest),
            }
        }
    }
}

/// The bytes of each payload.
pub open spec fn payload_bytes(payloads: Seq<Vec<u8>>) -> Seq<Seq<u8>> {
    Seq::new(payloads.len(), |i: int| payloads[i]@)
}

/// Splits an event log into its payloads. `None` means that the log ends in the
/// middle of a payload.
pub fn read_log(log: &[u8]) -> (r: Option<Vec<Vec<u8>>>)
    ensures
        match r {
            Some(payloads) => log_payloads(log@) == Some(payload_bytes(payloads@)),
            None => log_payloads(log@) is None,
        },
{
    let mut payloads: Vec<Vec<u8>> = Vec::new();
    let mut at: usize = 0;
    let n: usize = log.len();
    assert(log@.skip(0) =~= log@);
    assert(payload_bytes(payloads@) =~= Seq::<Seq<u8>>::empty());
    proof {
        if log_payloads(log@) is Some {
            assert(payload_bytes(payloads@) + log_payloads(log@)->0 =~= log_payloads(log@)->0);
        }
    }
    while n - at >= 4
        invariant
            at <= n == log@.len(),
            match log_payloads(log@.skip(at as int)) {
                Some(rest) => log_payloads(log@) == Some(payload_bytes(payloads@) + rest),
                None => log_payloads(log@) is None,
            },
        decreases n - at,
    {
        let ghost tail = log@.skip(at as int);
        let ghost done = payload_bytes(payloads@);
        let len: usize = log[at] as usize + 256 * (log[at + 1] as usize) + 65536 * (log[at
            + 2] as usize) + 16777216 * (log[at + 3] as usize);
        assert(len == le_value(tail));
        if n - at - 4 < len {
            return None;
        }
        let mut payload: Vec<u8> = Vec::new();
        let mut i: usize = 0;
        while i < len
            invariant
                i <= len,
                at + 4 + len <= n == log@.len(),
                payload@ == log@.subrange(at + 4, at + 4 + i),
            decreases len - i,
        {
            payload.push(log[at + 4 + i]);
            i = i + 1;
            assert(payload@ =~= log@.subrange(at + 4, at + 4 + i));
        }
        assert(payload@ =~= tail.subrange(4, 4 + len));
        payloads.push(payload);
        assert(log@.skip(at + 4 + len) =~= tail.skip(4 + len));
        proof {
            let rest = log_payloads(tail.skip(4 + len));
            if rest is Some {
                assert(payload_bytes(payloads@) + rest->0 =~= done + (seq![payload@] + rest->0));
            }
        }
        at = at + 4 + len;
    }
    proof {
        assert(payload_bytes(payloads@) + Seq::<Seq<u8>>::empty() =~= payload_bytes(payloads@));
    }
    Some(payloads)
}

/// A log made by appending payloads one after the other.
pub open spec fn log_of(payloads: Seq<Seq<u8>>) -> Seq<u8>
    decreases payloads.len(),
{
    if payloads.len() == 0 {
        Seq::empty()
    } else {
        log_of(payloads.drop_last()) + framed(payloads.last())
    }
}

/// The first payload of a log, and the log behind it.
proof fn log_of_split(payloads: Seq<Seq<u8>>)
    requires
        payloads.len() > 0,
    ensures
        log_of(payloads) == framed(payloads[0]) + log_of(payloads.skip(1)),
    decreases payloads.len(),
{
    if payloads.len() == 1 {
        assert(log_of(payloads.drop_last()) =~= Seq::<u8>::empty());
        assert(payloads.skip(1) =~= Seq::<Seq<u8>>::empty());
        assert(log_of(payloads) =~= framed(payloads[0]) + log_of(payloads.skip(1)));
    } else {
        let head = payloads.drop_last();
        log_of_split(head);
        assert(head.skip(1) =~= payloads.skip(1).drop_last());
        assert(payloads.skip(1).last() == payloads.last());
        assert(log_of(payloads) =~= framed(payloads[0]) + log_of(payloads.skip(1)));
    }
}

/// Reading a log gives back, in order, exactly what was appended to it.
pub proof fn log_round_trip(payloads: Seq<Seq<u8>>)
    requires
        forall|i: int| 0 <= i < payloads.len() ==> (#[trigger] payloads[i]).len() <= u32::MAX,
    ensures
        log_payloads(log_of(payloads)) == Some(payloads),
    decreases payloads.len(),
{
    if payloads.len() == 0 {
        assert(payloads =~= Seq::<Seq<u8>>::empty());
    } else {
        let first = payloads[0];
        let rest = payloads.skip(1);
        log_of_split(payloads);
        let log = log_of(payloads);
        let tail = log_of(rest);
        le_round_trip(first.len() as int);
        assert(log =~= le_bytes(first.len() as int) + first + tail);
        assert(le_value(log) == le_value(le_bytes(first.len() as int)));
        assert(log.subrange(4, 4 + first.len() as int) =~= first);
        assert(log.skip(4 + first.len() as int) =~= tail);
        assert forall|i: int| 0 <= i < rest.len() implies (#[trigger] rest[i]).len()
            <= u32::MAX by {
            assert(rest[i] == payloads[i + 1]);
        }
        log_round_trip(rest);
        assert(seq![first] + rest =~= payloads);
    }
}

/// What is framed and within the cap is read back: the prefix names the payload's
/// length.
pub proof fn frame_round_trip(payload: Seq<u8>)
    requires
        payload.len() <= MAX_FRAME_BYTES,
    ensures
        le_value(framed(payload).take(4)) == payload.len(),
        framed(payload).skip(4) == payload,
{
    le_round_trip(payload.len() as int);
    assert(framed(payload).take(4) =~= le_bytes(payload.len() as int));
    assert(framed(payload).skip(4) =~= payload);
}

/// A log with something behind it reads as its own payloads and then what the rest
/// reads as.
proof fn log_goes_on(payloads: Seq<Seq<u8>>, tail: Seq<u8>)
    requires
        forall|i: int| 0 <= i < payloads.len() ==> (#[trigger] payloads[i]).len() <= u32::MAX,
    ensures
        log_payloads(log_of(payloads) + tail) == (match log_payloads(tail) {
            Some(rest) => Some(payloads + rest),
            None => None,
        }),
    decreases payloads.len(),
{
    if payloads.len() == 0 {
        assert(log_of(payloads) + tail =~= tail);
        if let Some(rest) = log_payloads(tail) {
            assert(payloads + rest =~= rest);
        }
    } else {
        let first = payloads[0];
        let rest = payloads.skip(1);
        log_of_split(payloads);
        let log = log_of(payloads) + tail;
        let behind = log_of(rest) + tail;
        le_round_trip(first.len() as int);
        assert(log =~= le_bytes(first.len() as int) + first + behind);
        assert(le_value(log) == le_value(le_bytes(first.len() as int)));
        assert(log.subrange(4, 4 + first.len() as int) =~= first);
        assert(log.skip(4 + first.len() as int) =~= behind);
        assert forall|i: int| 0 <= i < rest.len() implies (#[trigger] rest[i]).len()
            <= u32::MAX by {
            assert(rest[i] == payloads[i + 1]);
        }
        log_goes_on(rest, tail);
        if let Some(more) = log_payloads(tail) {
            assert(seq![first] + (rest + more) =~= payloads + more);
        }
    }
}

/// A log that is cut inside its last payload does not read; one that is cut inside the
/// length in front of it reads as the payloads before.
pub proof fn cut_logs(payloads: Seq<Seq<u8>>, last: Seq<u8>, k: int)
    requires
        forall|i: int| 0 <= i < payloads.len() ==> (#[trigger] payloads[i]).len() <= u32::MAX,
        last.len() <= u32::MAX,
        0 <= k < 4 + last.len(),
    ensures
        log_payloads(log_of(payloads) + framed(last).take(k)) == (if k < 4 {
            Some(payloads)
        } else {
            None
        }),
{
    let tail = framed(last).take(k);
    log_goes_on(payloads, tail);
    if k < 4 {
        assert(payloads + Seq::<Seq<u8>>::empty() =~= payloads);
    } else {
        le_round_trip(last.len() as int);
        assert(le_value(tail) == le_value(le_bytes(last.len() as int)));
    }
}

} // verus!
