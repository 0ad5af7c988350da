//! Domain names: a sequence of segments, each of 1 to 63 bytes, written as
//! length-prefixed runs that end in a zero byte or in a pointer to an earlier
//! place of the same message.
//!
//! Segments are kept as bytes: nothing here takes them for text.

use vstd::prelude::*;
use crate::error::DecodeError;
use crate::wire::{copy_range, holds_at, lemma_holds_at_split, push_bytes};

verus! {

/// How many compression pointers one name may follow.
pub const MAX_POINTER_DEPTH: usize = 32;

/// The longest segment that a length byte can announce.
pub const MAX_SEGMENT_LEN: usize = 63;

/// What reading a name gives: its segments and the position behind what the
/// name takes at the place where it was read, or the reason of the failure.
pub type NameResult = Result<(Seq<Seq<u8>>, int), DecodeError>;

/// A domain name as the list of its segments, without the root.
#[derive(Clone, Debug, PartialEq, Eq)]
pub struct DnsLabel {
    pub labels: Vec<Vec<u8>>,
}

/// The segments of `v` as sequences of bytes.
pub open spec fn segments_of(v: Seq<Vec<u8>>) -> Seq<Seq<u8>> {
    Seq::new(v.len(), |i: int| v[i]@)
}

/// Every segment has at least 1 byte and at most 63.
pub open spec fn valid_name(segs: Seq<Seq<u8>>) -> bool {
    forall|i: int| 0 <= i < segs.len() ==> 1 <= #[trigger] segs[i].len() <= 63
}

/// The bytes of a name without compression: each segment behind its
/// length, then a zero byte.
pub open spec fn encode_name(segs: Seq<Seq<u8>>) -> Seq<u8>
    decreases segs.len(),
{
    if segs.len() == 0 {
        seq![0u8]
    } else {
        seq![segs[0].len() as u8] + segs[0] + encode_name(segs.drop_first())
    }
}

/// `r` with the segments `front` put before its own.
pub open spec fn prepend(front: Seq<Seq<u8>>, r: NameResult) -> NameResult {
    match r {
        Ok((segs, end)) => Ok((front + segs, end)),
        Err(e) => Err(e),
    }
}

/// The target of the pointer whose two bytes are `first` and `second`: the
/// low six bits of the first, then the second.
pub open spec fn pointer_target(first: u8, second: u8) -> int {
    (first % 64) * 256 + second
}

/// The name that stands at `pos` in `buf`, after `depth` pointers were
/// followed to get there.
///
/// A byte of 64 or more, that is with one of its two top bits set, starts a
/// pointer of two bytes. It must aim before its own position, and only
/// `MAX_POINTER_DEPTH` pointers are followed in a row; the name ends with
/// what stands at the target. A zero byte ends the name. Any other byte is
/// the length of the segment that follows it.
pub open spec fn parse_name(buf: Seq<u8>, pos: int, depth: nat) -> NameResult
    decreases MAX_POINTER_DEPTH - depth, buf.len() - pos,
{
    if pos < 0 || pos >= buf.len() {
        Err(DecodeError::TruncatedLabel)
    } else if buf[pos] >= 64 {
        if pos + 1 >= buf.len() {
            Err(DecodeError::TruncatedLabel)
        } else if pointer_target(buf[pos], buf[pos + 1]) >= pos {
            Err(DecodeError::InvalidPointer)
        } else if depth >= MAX_POINTER_DEPTH {
            Err(DecodeError::CompressionLoopExceeded)
        } else {
            match parse_name(buf, pointer_target(buf[pos], buf[pos + 1]), depth + 1) {
                Ok((segs, _)) => Ok((segs, pos + 2)),
                Err(e) => Err(e),
            }
        }
    } else if buf[pos] == 0 {
        Ok((Seq::empty(), pos + 1))
    } else if pos + 1 + buf[pos] > buf.len() {
        Err(DecodeError::TruncatedLabel)
    } else {
        prepend(
            seq![buf.subrange(pos + 1, pos + 1 + buf[pos])],
            parse_name(buf, pos + 1 + buf[pos], depth),
        )
    }
}

/// Putting `front` and then one more segment before a result is putting
/// `front` with that segment at its end before it.
pub proof fn lemma_prepend_push(front: Seq<Seq<u8>>, seg: Seq<u8>, r: NameResult)
    ensures
        prepend(front, prepend(seq![seg], r)) == prepend(front.push(seg), r),
{
    match r {
        Ok((segs, end)) => {
            assert(front + (seq![seg] + segs) =~= front.push(seg) + segs);
        },
        Err(_) => {},
    }
}

/// Every name that can be read is made of segments of 1 to 63 bytes, and
/// ends inside the buffer, behind the place where it began.
pub proof fn lemma_parsed_name_valid(buf: Seq<u8>, pos: int, depth: nat)
    ensures
        parse_name(buf, pos, depth) matches Ok((segs, end)) ==> valid_name(segs) && 0 <= pos < end
            <= buf.len(),
    decreases MAX_POINTER_DEPTH - depth, buf.len() - pos,
{
    if pos < 0 || pos >= buf.len() {
    } else if buf[pos] >= 64 {
        if pos + 1 < buf.len() && pointer_target(buf[pos], buf[pos + 1]) < pos && depth
            < MAX_POINTER_DEPTH {
            lemma_parsed_name_valid(buf, pointer_target(buf[pos], buf[pos + 1]), depth + 1);
        }
    } else if buf[pos] == 0 {
    } else if pos + 1 + buf[pos] > buf.len() {
    } else {
        lemma_parsed_name_valid(buf, pos + 1 + buf[pos], depth);
        match parse_name(buf, pos + 1 + buf[pos], depth) {
            Ok((rest, end)) => {
                let seg = buf.subrange(pos + 1, pos + 1 + buf[pos]);
                let segs = seq![seg] + rest;
                assert forall|i: int| 0 <= i < segs.len() implies 1 <= #[trigger] segs[i].len()
                    <= 63 by {
                    if i > 0 {
                        assert(segs[i] == rest[i - 1]);
                    }
                }
            },
            Err(_) => {},
        }
    }
}

/// Reading a name from `start` comes to `pos` by stepping over whole
/// segments, or begins there.
pub open spec fn steps_to(buf: Seq<u8>, start: int, pos: int) -> bool
    decreases buf.len() - start,
{
    if start == pos {
        true
    } else if 0 <= start < buf.len() && 1 <= buf[start] <= 63 && start + 1 + buf[start]
        <= buf.len() {
        steps_to(buf, start + 1 + buf[start], pos)
    } else {
        false
    }
}

/// A pointer that aims at its own position or behind it is refused as
/// invalid, at whatever depth it is met, whether the name begins with it or
/// comes to it behind segments.
pub proof fn lemma_forward_pointer_rejected(buf: Seq<u8>, start: int, pos: int, depth: nat)
    requires
        steps_to(buf, start, pos),
        0 <= pos,
        pos + 1 < buf.len(),
        buf[pos] >= 64,
        pointer_target(buf[pos], buf[pos + 1]) >= pos,
    ensures
        parse_name(buf, start, depth) == Err::<(Seq<Seq<u8>>, int), DecodeError>(
            DecodeError::InvalidPointer,
        ),
    decreases buf.len() - start,
{
    if start != pos {
        lemma_forward_pointer_rejected(buf, start + 1 + buf[start], pos, depth);
    }
}

/// A name of valid segments that was written without compression is read
/// back as it was, from wherever it stands in a buffer and at any depth, and
/// takes exactly the bytes that were written.
pub proof fn lemma_name_round_trip(buf: Seq<u8>, pos: int, segs: Seq<Seq<u8>>, depth: nat)
    requires
        valid_name(segs),
        holds_at(buf, pos, encode_name(segs)),
    ensures
        parse_name(buf, pos, depth) == Ok::<(Seq<Seq<u8>>, int), DecodeError>(
            (segs, pos + encode_name(segs).len()),
        ),
    decreases segs.len(),
{
    let enc = encode_name(segs);
    let w = buf.subrange(pos, pos + enc.len());
    assert(buf[pos] == w[0]);
    if segs.len() == 0 {
        assert(segs =~= Seq::empty());
    } else {
        let tail = encode_name(segs.drop_first());
        assert(1 <= segs[0].len() <= 63);
        assert(seq![segs[0].len() as u8] + (segs[0] + tail) =~= enc);
        lemma_holds_at_split(buf, pos, seq![segs[0].len() as u8], segs[0] + tail);
        lemma_holds_at_split(buf, pos + 1, segs[0], tail);
        assert forall|i: int| 0 <= i < segs.drop_first().len() implies 1
            <= #[trigger] segs.drop_first()[i].len() <= 63 by {
            assert(segs.drop_first()[i] == segs[i + 1]);
        }
        lemma_name_round_trip(buf, pos + 1 + segs[0].len(), segs.drop_first(), depth);
        assert(seq![segs[0]] + segs.drop_first() =~= segs);
    }
}

impl View for DnsLabel {
    type V = Seq<Seq<u8>>;

    open spec fn view(&self) -> Seq<Seq<u8>> {
        segments_of(self.labels@)
    }
}

/// Reads into `out` the segments of the name at `pos`, where `depth` pointers
/// were followed to get there, and returns the position behind what the name
/// takes at `pos`.
fn decode_at(buf: &[u8], pos: usize, depth: usize, out: &mut Vec<Vec<u8>>) -> (r: Result<
    usize,
    DecodeError,
>)
    requires
        depth <= MAX_POINTER_DEPTH,
    ensures
        match parse_name(buf@, pos as int, depth as nat) {
            Ok((segs, end)) => r is Ok && r->Ok_0 == end && segments_of(final(out)@)
                == segments_of(old(out)@) + segs,
            Err(e) => r == Err::<usize, DecodeError>(e),
        },
    decreases MAX_POINTER_DEPTH - depth,
{
    let ghost mut added: Seq<Seq<u8>> = Seq::empty();
    let mut cur: usize = pos;
    proof {
        assert(segments_of(out@) =~= segments_of(old(out)@) + added);
    }
    loop
        invariant
            depth <= MAX_POINTER_DEPTH,
            segments_of(out@) == segments_of(old(out)@) + added,
            parse_name(buf@, pos as int, depth as nat) == prepend(
                added,
                parse_name(buf@, cur as int, depth as nat),
            ),
        decreases buf@.len() - cur,
    {
        if cur >= buf.len() {
            return Err(DecodeError::TruncatedLabel);
        }
        let b: u8 = buf[cur];
        if b >= 64 {
            if cur + 1 >= buf.len() {
                return Err(DecodeError::TruncatedLabel);
            }
            let target: usize = ((b % 64) as usize) * 256 + (buf[cur + 1] as usize);
            if target >= cur {
                return Err(DecodeError::InvalidPointer);
            }
            if depth >= MAX_POINTER_DEPTH {
                return Err(DecodeError::CompressionLoopExceeded);
            }
            match decode_at(buf, target, depth + 1, out) {
                Ok(_) => {
                    proof {
                        let segs = parse_name(buf@, target as int, (depth + 1) as nat)->Ok_0.0;
                        assert(segments_of(out@) =~= segments_of(old(out)@) + (added + segs));
                    }
                    return Ok(cur + 2);
                },
                Err(e) => {
                    return Err(e);
                },
            }
        }
        if b == 0 {
            proof {
                assert(added + Seq::<Seq<u8>>::empty() =~= added);
            }
            return Ok(cur + 1);
        }
        let len: usize = b as usize;
        if len > buf.len() - cur - 1 {
            return Err(DecodeError::TruncatedLabel);
        }
        let seg = copy_range(buf, cur + 1, cur + 1 + len);
        proof {
            lemma_prepend_push(
                added,
                seg@,
                parse_name(buf@, cur + 1 + len as int, depth as nat),
            );
            assert(segments_of(out@.push(seg)) =~= segments_of(out@).push(seg@));
            assert((segments_of(old(out)@) + added).push(seg@) =~= segments_of(old(out)@)
                + added.push(seg@));
            added = added.push(seg@);
        }
        out.push(seg);
        cur = cur + 1 + len;
    }
}

impl DnsLabel {
    /// Every segment has at least 1 byte and at most 63.
    pub open spec fn wf(&self) -> bool {
        valid_name(self@)
    }

    /// The name made of `labels`, first segment first.
    pub fn new(labels: Vec<Vec<u8>>) -> (name: DnsLabel)
        ensures
            name.labels == labels,
    {
        DnsLabel { labels }
    }

    /// A copy of the name, segment by segment.
    pub fn duplicate(&self) -> (copy: DnsLabel)
        ensures
            copy@ == self@,
    {
        let mut labels: Vec<Vec<u8>> = Vec::new();
        let mut i: usize = 0;
        while i < self.labels.len()
            invariant
                i <= self.labels@.len(),
                labels@.len() == i,
                forall|j: int| 0 <= j < i ==> (#[trigger] labels@[j])@ == self.labels@[j]@,
            decreases self.labels@.len() - i,
        {
            let seg: &Vec<u8> = &self.labels[i];
            let copy = copy_range(seg.as_slice(), 0, seg.len());
            proof {
                assert(seg@.subrange(0, seg@.len() as int) =~= seg@);
            }
            labels.push(copy);
            i = i + 1;
        }
        proof {
            assert(segments_of(labels@) =~= segments_of(self.labels@));
        }
        DnsLabel { labels }
    }

    /// Whether every segment has at least 1 byte and at most 63.
    pub fn is_well_formed(&self) -> (b: bool)
        ensures
            b == self.wf(),
    {
        let mut i: usize = 0;
        while i < self.labels.len()
            invariant
                i <= self.labels@.len(),
                forall|j: int| 0 <= j < i ==> 1 <= #[trigger] self@[j].len() <= 63,
            decreases self.labels@.len() - i,
        {
            let n: usize = self.labels[i].len();
            if n == 0 || n > MAX_SEGMENT_LEN {
                proof {
                    assert(self@[i as int].len() == n);
                }
                return false;
            }
            i = i + 1;
        }
        true
    }

    /// Reads the name that stands at `pos` in the message `buf`, following
    /// compression pointers, and returns it with the position behind what it
    /// takes at `pos`.
    pub fn decode(buf: &[u8], pos: usize) -> (r: Result<(DnsLabel, usize), DecodeError>)
        ensures
            match parse_name(buf@, pos as int, 0) {
                Ok((segs, end)) => r is Ok && r->Ok_0.0@ == segs && r->Ok_0.1 == end
                    && r->Ok_0.0.wf() && pos < end <= buf@.len(),
                Err(e) => r is Err && r->Err_0 == e,
            },
    {
        let mut labels: Vec<Vec<u8>> = Vec::new();
        proof {
            lemma_parsed_name_valid(buf@, pos as int, 0);
            assert(segments_of(labels@) =~= Seq::<Seq<u8>>::empty());
        }
        match decode_at(buf, pos, 0, &mut labels) {
            Ok(end) => {
                proof {
                    let segs = parse_name(buf@, pos as int, 0)->Ok_0.0;
                    assert(Seq::<Seq<u8>>::empty() + segs =~= segs);
                }
                Ok((DnsLabel { labels }, end))
            },
            Err(e) => Err(e),
        }
    }

    /// Appends the name to `out`, without compression.
    pub fn write_to(&self, out: &mut Vec<u8>)
        requires
            self.wf(),
        ensures
            final(out)@ == old(out)@ + encode_name(self@),
    {
        let mut i: usize = 0;
        proof {
            assert(self@.skip(0) =~= self@);
        }
        while i < self.labels.len()
            invariant
                i <= self.labels@.len(),
                self.wf(),
                out@ + encode_name(self@.skip(i as int)) == old(out)@ + encode_name(self@),
            decreases self.labels@.len() - i,
        {
            let seg: &Vec<u8> = &self.labels[i];
            let ghost rest = self@.skip(i as int);
            let ghost before = out@;
            proof {
                assert(rest[0] == self@[i as int]);
                assert(rest[0] == seg@);
                assert(1 <= self@[i as int].len() <= 63);
                assert(rest.drop_first() =~= self@.skip(i + 1));
            }
            out.push(seg.len() as u8);
            push_bytes(out, seg.as_slice());
            proof {
                assert(out@ + encode_name(self@.skip(i + 1)) =~= before + encode_name(rest));
            }
            i = i + 1;
        }
        out.push(0u8);
        proof {
            assert(self@.skip(i as int).len() == 0);
            assert(out@ =~= old(out)@ + encode_name(self@));
        }
    }

    /// The bytes of the name, without compression.
    pub fn encode(&self) -> (bytes: Vec<u8>)
        requires
            self.wf(),
        ensures
            bytes@ == encode_name(self@),
    {
        let mut out: Vec<u8> = Vec::new();
        self.write_to(&mut out);
        proof {
            assert(out@ =~= encode_name(self@));
        }
        out
    }
}

impl Default for DnsLabel {
    fn default() -> (name: DnsLabel)
        ensures
            name@ == Seq::<Seq<u8>>::empty(),
    {
        let name = DnsLabel { labels: Vec::new() };
        proof {
            assert(name@ =~= Seq::<Seq<u8>>::empty());
        }
        name
    }
}

} // verus!
