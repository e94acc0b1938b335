//! The multiplayer wire protocol: little-endian integers, length-prefixed
//! frames, and the packets that client and host exchange (join, hello, input,
//! snapshot). Floating-point fields travel as the bits of an `f32` and are
//! held here as those bits (`u32`).
use vstd::prelude::*;
use crate::world::{Theme, Weather};

verus! {

/// The port a host listens on.
pub const DEFAULT_PORT: u16 = 4242;

/// The most clients a host takes.
pub const MAX_CLIENTS: usize = 8;

/// Whether a host that holds `held` clients takes one more: only while it
/// holds fewer than `MAX_CLIENTS`, so that it never holds more.
pub fn admit_client(held: usize) -> (r: bool)
    ensures
        r == (held < MAX_CLIENTS),
        r ==> held + 1 <= MAX_CLIENTS,
{
    held < MAX_CLIENTS
}

/// What happens to a host's connections.
#[derive(Clone, Copy, PartialEq, Eq, Structural, Debug)]
pub enum SeatEvent {
    /// A client connects.
    Connect,
    /// The connection of the given player is lost.
    Disconnect(usize),
}

/// How many connections `held` marks as held.
pub open spec fn held_count(held: Seq<bool>) -> nat
    decreases held.len(),
{
    if held.len() == 0 {
        0
    } else {
        held_count(held.drop_last()) + if held.last() {
            1nat
        } else {
            0nat
        }
    }
}

/// The seats after an event: a client that connects while fewer than
/// `MAX_CLIENTS` are held becomes the next player, and is held; one that
/// connects while the host is full is turned away and changes nothing; a lost
/// connection is no longer held (its player stays in the game).
pub open spec fn seat_step(held: Seq<bool>, e: SeatEvent) -> Seq<bool> {
    match e {
        SeatEvent::Connect => if held_count(held) < MAX_CLIENTS {
            held.push(true)
        } else {
            held
        },
        SeatEvent::Disconnect(id) => if id < held.len() {
            held.update(id as int, false)
        } else {
            held
        },
    }
}

/// The seats after a run of events.
pub open spec fn seats_after(held: Seq<bool>, events: Seq<SeatEvent>) -> Seq<bool>
    decreases events.len(),
{
    if events.len() == 0 {
        held
    } else {
        seats_after(seat_step(held, events[0]), events.drop_first())
    }
}

proof fn lemma_count_push(held: Seq<bool>, b: bool)
    ensures
        held_count(held.push(b)) == held_count(held) + if b {
            1nat
        } else {
            0nat
        },
{
    assert(held.push(b).drop_last() =~= held);
}

proof fn lemma_count_clear(held: Seq<bool>, id: int)
    requires
        0 <= id < held.len(),
    ensures
        held_count(held.update(id, false)) == held_count(held) - if held[id] {
            1int
        } else {
            0int
        },
    decreases held.len(),
{
    let u = held.update(id, false);
    if id == held.len() - 1 {
        assert(u.drop_last() =~= held.drop_last());
    } else {
        lemma_count_clear(held.drop_last(), id);
        assert(u.drop_last() =~= held.drop_last().update(id, false));
    }
}

/// One event never takes the host beyond `MAX_CLIENTS` connections.
pub proof fn lemma_seat_step_bounded(held: Seq<bool>, e: SeatEvent)
    requires
        held_count(held) <= MAX_CLIENTS,
    ensures
        held_count(seat_step(held, e)) <= MAX_CLIENTS,
{
    match e {
        SeatEvent::Connect => {
            lemma_count_push(held, true);
        },
        SeatEvent::Disconnect(id) => {
            if id < held.len() {
                lemma_count_clear(held, id as int);
            }
        },
    }
}

/// Whatever clients connect and whatever connections are lost, in any order,
/// a host that starts with no connections never holds more than
/// `MAX_CLIENTS` of them.
pub proof fn lemma_seats_never_exceed(events: Seq<SeatEvent>)
    ensures
        held_count(seats_after(Seq::empty(), events)) <= MAX_CLIENTS,
{
    lemma_seats_bounded(Seq::empty(), events);
}

proof fn lemma_seats_bounded(held: Seq<bool>, events: Seq<SeatEvent>)
    requires
        held_count(held) <= MAX_CLIENTS,
    ensures
        held_count(seats_after(held, events)) <= MAX_CLIENTS,
    decreases events.len(),
{
    if events.len() > 0 {
        lemma_seat_step_bounded(held, events[0]);
        lemma_seats_bounded(seat_step(held, events[0]), events.drop_first());
    }
}

/// A host's connections: for each player that ever joined, in order, whether
/// its connection is still held.
pub struct Seats {
    held: Vec<bool>,
    count: usize,
}

impl View for Seats {
    type V = Seq<bool>;

    closed spec fn view(&self) -> Seq<bool> {
        self.held@
    }
}

impl Seats {
    #[verifier::type_invariant]
    spec fn inv(self) -> bool {
        &&& self.count == held_count(self.held@)
        &&& self.count <= MAX_CLIENTS
    }

    /// No player has joined yet.
    pub fn new() -> (s: Self)
        ensures
            s@ == Seq::<bool>::empty(),
    {
        let s = Seats { held: Vec::new(), count: 0 };
        assert(s.held@ =~= Seq::<bool>::empty());
        s
    }

    /// How many connections are held.
    pub fn held(&self) -> (n: usize)
        ensures
            n == held_count(self@),
            n <= MAX_CLIENTS,
    {
        proof {
            use_type_invariant(self);
        }
        self.count
    }

    /// A client connects: while fewer than `MAX_CLIENTS` are held it becomes
    /// the next player, whose index is returned, and is held; otherwise it is
    /// turned away (`None`): it gets no player and no greeting.
    pub fn connect(&mut self) -> (id: Option<usize>)
        ensures
            final(self)@ == seat_step(old(self)@, SeatEvent::Connect),
            id == if held_count(old(self)@) < MAX_CLIENTS {
                Some(old(self)@.len() as usize)
            } else {
                None::<usize>
            },
            held_count(final(self)@) <= MAX_CLIENTS,
    {
        proof {
            use_type_invariant(&*self);
            lemma_count_push(self.held@, true);
        }
        if admit_client(self.count) {
            let mut seats = Seats::new();
            std::mem::swap(&mut seats, self);
            let Seats { mut held, count } = seats;
            let id = held.len();
            held.push(true);
            *self = Seats { held, count: count + 1 };
            Some(id)
        } else {
            None
        }
    }

    /// The connection of player `id` is lost; it is no longer held.
    pub fn disconnect(&mut self, id: usize)
        ensures
            final(self)@ == seat_step(old(self)@, SeatEvent::Disconnect(id)),
            held_count(final(self)@) <= MAX_CLIENTS,
    {
        proof {
            use_type_invariant(&*self);
        }
        if id < self.held.len() {
            proof {
                lemma_count_clear(self.held@, id as int);
            }
            let mut seats = Seats::new();
            std::mem::swap(&mut seats, self);
            let Seats { mut held, count } = seats;
            let was = held[id];
            held.set(id, false);
            let count = if was {
                count - 1
            } else {
                count
            };
            *self = Seats { held, count };
        }
    }
}

// ---------------------------------------------------------------------------
// little-endian integers
// ---------------------------------------------------------------------------

pub open spec fn le16(v: u16) -> Seq<u8> {
    seq![(v % 256) as u8, (v / 256) as u8]
}

pub open spec fn le32(v: u32) -> Seq<u8> {
    seq![
        (v % 256) as u8,
        ((v / 256) % 256) as u8,
        ((v / 65536) % 256) as u8,
        (v / 16777216) as u8,
    ]
}

pub open spec fn le64(v: u64) -> Seq<u8> {
    seq![
        (v % 256) as u8,
        ((v / 0x100) % 256) as u8,
        ((v / 0x10000) % 256) as u8,
        ((v / 0x1000000) % 256) as u8,
        ((v / 0x100000000) % 256) as u8,
        ((v / 0x10000000000) % 256) as u8,
        ((v / 0x1000000000000) % 256) as u8,
        (v / 0x100000000000000) as u8,
    ]
}

/// The `u16` whose little-endian bytes start `s`.
pub open spec fn from_le16(s: Seq<u8>) -> u16 {
    (s[0] + 256 * s[1]) as u16
}

/// The `u32` whose little-endian bytes start `s`.
pub open spec fn from_le32(s: Seq<u8>) -> u32 {
    (s[0] + 256 * s[1] + 65536 * s[2] + 16777216 * s[3]) as u32
}

/// The `u64` whose little-endian bytes start `s`.
pub open spec fn from_le64(s: Seq<u8>) -> u64 {
    (s[0] + 0x100 * s[1] + 0x10000 * s[2] + 0x1000000 * s[3] + 0x100000000 * s[4] + 0x10000000000
        * s[5] + 0x1000000000000 * s[6] + 0x100000000000000 * s[7]) as u64
}

/// Appends the two little-endian bytes of `v`.
pub fn le_u16(v: u16, o: &mut Vec<u8>)
    ensures
        final(o)@ == old(o)@ + le16(v),
{
    o.push((v % 256) as u8);
    o.push((v / 256) as u8);
    assert(final(o)@ =~= old(o)@ + le16(v));
}

/// Appends the four little-endian bytes of `v`.
pub fn le_u32(v: u32, o: &mut Vec<u8>)
    ensures
        final(o)@ == old(o)@ + le32(v),
{
    o.push((v % 256) as u8);
    o.push(((v / 256) % 256) as u8);
    o.push(((v / 65536) % 256) as u8);
    o.push((v / 16777216) as u8);
    assert(final(o)@ =~= old(o)@ + le32(v));
}

/// Appends the eight little-endian bytes of `v`.
pub fn le_u64(v: u64, o: &mut Vec<u8>)
    ensures
        final(o)@ == old(o)@ + le64(v),
{
    o.push((v % 256) as u8);
    o.push(((v / 0x100) % 256) as u8);
    o.push(((v / 0x10000) % 256) as u8);
    o.push(((v / 0x1000000) % 256) as u8);
    o.push(((v / 0x100000000) % 256) as u8);
    o.push(((v / 0x10000000000) % 256) as u8);
    o.push(((v / 0x1000000000000) % 256) as u8);
    o.push((v / 0x100000000000000) as u8);
    assert(final(o)@ =~= old(o)@ + le64(v));
}

/// Reads a little-endian `u16` from the start of `b`.
pub fn parse_u16(b: &[u8]) -> (v: u16)
    requires
        b@.len() >= 2,
    ensures
        v == from_le16(b@),
{
    b[0] as u16 + (b[1] as u16) * 256
}

/// Reads a little-endian `u32` from the start of `b`.
pub fn parse_u32(b: &[u8]) -> (v: u32)
    requires
        b@.len() >= 4,
    ensures
        v == from_le32(b@),
{
    b[0] as u32 + (b[1] as u32) * 256 + (b[2] as u32) * 65536 + (b[3] as u32) * 16777216
}

/// Reads a little-endian `u64` from the start of `b`.
pub fn parse_u64(b: &[u8]) -> (v: u64)
    requires
        b@.len() >= 8,
    ensures
        v == from_le64(b@),
{
    b[0] as u64 + (b[1] as u64) * 0x100 + (b[2] as u64) * 0x10000 + (b[3] as u64) * 0x1000000
        + (b[4] as u64) * 0x100000000 + (b[5] as u64) * 0x10000000000 + (b[6] as u64)
        * 0x1000000000000 + (b[7] as u64) * 0x100000000000000
}

/// Reading back the bytes written for a `u16` gives the `u16`.
pub proof fn lemma_le16_roundtrip(v: u16, rest: Seq<u8>)
    ensures
        from_le16(le16(v) + rest) == v,
        le16(v).len() == 2,
{
    assert((le16(v) + rest)[0] == (v % 256) as u8);
    assert((le16(v) + rest)[1] == (v / 256) as u8);
}

/// Reading back the bytes written for a `u32` gives the `u32`.
pub proof fn lemma_le32_roundtrip(v: u32, rest: Seq<u8>)
    ensures
        from_le32(le32(v) + rest) == v,
        le32(v).len() == 4,
{
    let s = le32(v) + rest;
    assert(s[0] == (v % 256) as u8);
    assert(s[1] == ((v / 256) % 256) as u8);
    assert(s[2] == ((v / 65536) % 256) as u8);
    assert(s[3] == (v / 16777216) as u8);
}

/// Reading back the bytes written for a `u64` gives the `u64`.
pub proof fn lemma_le64_roundtrip(v: u64, rest: Seq<u8>)
    ensures
        from_le64(le64(v) + rest) == v,
        le64(v).len() == 8,
{
    let s = le64(v) + rest;
    assert(s[0] == (v % 256) as u8);
    assert(s[1] == ((v / 0x100) % 256) as u8);
    assert(s[2] == ((v / 0x10000) % 256) as u8);
    assert(s[3] == ((v / 0x1000000) % 256) as u8);
    assert(s[4] == ((v / 0x100000000) % 256) as u8);
    assert(s[5] == ((v / 0x10000000000) % 256) as u8);
    assert(s[6] == ((v / 0x1000000000000) % 256) as u8);
    assert(s[7] == (v / 0x100000000000000) as u8);
    assert(v == (v % 256) + ((v / 0x100) % 256) * 0x100 + ((v / 0x10000) % 256) * 0x10000 + ((v
        / 0x1000000) % 256) * 0x1000000 + ((v / 0x100000000) % 256) * 0x100000000 + ((v
        / 0x10000000000) % 256) * 0x10000000000 + ((v / 0x1000000000000) % 256) * 0x1000000000000
        + (v / 0x100000000000000) * 0x100000000000000) by (bit_vector);
}

/// The written bytes are the value's base-256 digits, least significant
/// first: a value is the sum of each byte times 256 to the power of its place.
pub proof fn lemma_little_endian(a: u16, b: u32, c: u64)
    ensures
        le16(a).len() == 2,
        le16(a)[0] + 256 * le16(a)[1] == a,
        le16(a)[0] == a % 256,
        le32(b).len() == 4,
        le32(b)[0] + 256 * le32(b)[1] + 65536 * le32(b)[2] + 16777216 * le32(b)[3] == b,
        le32(b)[0] == b % 256,
        le64(c).len() == 8,
        le64(c)[0] + 0x100 * le64(c)[1] + 0x10000 * le64(c)[2] + 0x1000000 * le64(c)[3]
            + 0x100000000 * le64(c)[4] + 0x10000000000 * le64(c)[5] + 0x1000000000000 * le64(
            c,
        )[6] + 0x100000000000000 * le64(c)[7] == c,
        le64(c)[0] == c % 256,
{
    let e = Seq::<u8>::empty();
    lemma_le16_roundtrip(a, e);
    lemma_le32_roundtrip(b, e);
    lemma_le64_roundtrip(c, e);
    assert(le16(a) + e =~= le16(a));
    assert(le32(b) + e =~= le32(b));
    assert(le64(c) + e =~= le64(c));
    let s16 = le16(a)[0] + 256 * le16(a)[1];
    assert(s16 < 65536);
    let s32 = le32(b)[0] + 256 * le32(b)[1] + 65536 * le32(b)[2] + 16777216 * le32(b)[3];
    assert(s32 < 0x1_0000_0000);
    let s64 = le64(c)[0] + 0x100 * le64(c)[1] + 0x10000 * le64(c)[2] + 0x1000000 * le64(c)[3]
        + 0x100000000 * le64(c)[4] + 0x10000000000 * le64(c)[5] + 0x1000000000000 * le64(c)[6]
        + 0x100000000000000 * le64(c)[7];
    assert(s64 < 0x1_0000_0000_0000_0000);
}

// ---------------------------------------------------------------------------
// frames
// ---------------------------------------------------------------------------

/// A frame on the stream: the payload's length (modulo 2^16) as a
/// little-endian `u16`, then the payload.
pub open spec fn frame_bytes(p: Seq<u8>) -> Seq<u8> {
    le16(p.len() as u16) + p
}

/// Frames the payload for the stream.
pub fn encode_packet(payload: &[u8]) -> (out: Vec<u8>)
    ensures
        out@ == frame_bytes(payload@),
        out@.len() == payload@.len() + 2,
        out@[0] == (payload@.len() % 256) as u8,
        out@[1] == ((payload@.len() / 256) % 256) as u8,
        out@.subrange(2, out@.len() as int) == payload@,
{
    let mut out: Vec<u8> = Vec::new();
    le_u16(payload.len() as u16, &mut out);
    let mut i: usize = 0;
    while i < payload.len()
        invariant
            0 <= i <= payload@.len(),
            out@ == le16(payload@.len() as u16) + payload@.subrange(0, i as int),
        decreases payload@.len() - i,
    {
        out.push(payload[i]);
        i += 1;
        assert(out@ =~= le16(payload@.len() as u16) + payload@.subrange(0, i as int));
    }
    assert(payload@.subrange(0, payload@.len() as int) =~= payload@);
    assert(out@.subrange(2, out@.len() as int) =~= payload@);
    proof {
        let l: usize = payload@.len() as usize;
        assert(((l as u16) % 256) as u8 == (l % 256) as u8 && ((l as u16) / 256) as u8 == ((l
            / 256) % 256) as u8) by (bit_vector);
    }
    out
}

/// The buffer starts with a whole frame.
pub open spec fn frame_ready(b: Seq<u8>) -> bool {
    b.len() >= 2 && b.len() >= 2 + from_le16(b)
}

/// Where the frame at the start of the buffer ends.
pub open spec fn frame_end(b: Seq<u8>) -> int {
    2 + from_le16(b)
}

/// The frames at the start of the buffer, in order, and what is left after
/// them (an incomplete frame, or nothing).
pub open spec fn split_frames(b: Seq<u8>) -> (Seq<Seq<u8>>, Seq<u8>)
    decreases b.len(),
{
    if frame_ready(b) {
        let rest = b.subrange(frame_end(b), b.len() as int);
        let (fs, left) = split_frames(rest);
        (seq![b.subrange(2, frame_end(b))] + fs, left)
    } else {
        (Seq::empty(), b)
    }
}

/// Copies `b[lo..hi]` into a new vector.
fn copy_range(b: &Vec<u8>, lo: usize, hi: usize) -> (r: Vec<u8>)
    requires
        lo <= hi <= b@.len(),
    ensures
        r@ == b@.subrange(lo as int, hi as int),
{
    let mut r: Vec<u8> = Vec::new();
    let mut i: usize = lo;
    while i < hi
        invariant
            lo <= i <= hi <= b@.len(),
            r@ == b@.subrange(lo as int, i as int),
        decreases hi - i,
    {
        r.push(b[i]);
        i += 1;
        assert(r@ =~= b@.subrange(lo as int, i as int));
    }
    r
}

/// Takes the frame at the start of the buffer off it, when the buffer holds
/// all of it, and gives its payload.
pub fn take_frame(buf: &mut Vec<u8>) -> (p: Option<Vec<u8>>)
    ensures
        frame_ready(old(buf)@) ==> p is Some && p->0@ == old(buf)@.subrange(
            2,
            frame_end(old(buf)@),
        ) && final(buf)@ == old(buf)@.subrange(frame_end(old(buf)@), old(buf)@.len() as int),
        !frame_ready(old(buf)@) ==> p is None && final(buf)@ == old(buf)@,
{
    if buf.len() < 2 {
        return None;
    }
    let plen = parse_u16(buf.as_slice()) as usize;
    if buf.len() - 2 < plen {
        return None;
    }
    let payload = copy_range(buf, 2, 2 + plen);
    let rest = copy_range(buf, 2 + plen, buf.len());
    *buf = rest;
    Some(payload)
}

/// Takes every whole frame off the start of the buffer, in order, and gives
/// their payloads; an incomplete frame stays in the buffer.
pub fn drain_frames(buf: &mut Vec<u8>) -> (frames: Vec<Vec<u8>>)
    ensures
        frames@.map_values(|f: Vec<u8>| f@) == split_frames(old(buf)@).0,
        final(buf)@ == split_frames(old(buf)@).1,
{
    let ghost orig = buf@;
    let mut frames: Vec<Vec<u8>> = Vec::new();
    loop
        invariant
            orig == old(buf)@,
            frames@.map_values(|f: Vec<u8>| f@) + split_frames(buf@).0 == split_frames(orig).0,
            split_frames(buf@).1 == split_frames(orig).1,
        decreases buf@.len(),
    {
        let ghost before = buf@;
        let ghost fv = frames@.map_values(|f: Vec<u8>| f@);
        match take_frame(buf) {
            Some(p) => {
                frames.push(p);
                proof {
                    let (fs, left) = split_frames(buf@);
                    assert(split_frames(before) == (seq![p@] + fs, left));
                    assert(frames@.map_values(|f: Vec<u8>| f@) =~= fv.push(p@));
                    assert(fv.push(p@) + fs =~= fv + (seq![p@] + fs));
                }
            },
            None => {
                assert(split_frames(buf@) == (Seq::<Seq<u8>>::empty(), buf@));
                assert(frames@.map_values(|f: Vec<u8>| f@) + split_frames(buf@).0 =~= frames@.map_values(
                    |f: Vec<u8>| f@,
                ));
                return frames;
            },
        }
    }
}

/// The stream of frames for the payloads `ps`, in order.
pub open spec fn stream_bytes(ps: Seq<Seq<u8>>) -> Seq<u8>
    decreases ps.len(),
{
    if ps.len() == 0 {
        Seq::empty()
    } else {
        frame_bytes(ps[0]) + stream_bytes(ps.drop_first())
    }
}

/// A framed payload read back from the front of a buffer gives the payload
/// and leaves what followed it.
pub proof fn lemma_frame_roundtrip(p: Seq<u8>, rest: Seq<u8>)
    requires
        p.len() < 65536,
    ensures
        frame_ready(frame_bytes(p) + rest),
        frame_end(frame_bytes(p) + rest) == 2 + p.len() as int,
        (frame_bytes(p) + rest).subrange(2, 2 + p.len() as int) == p,
        (frame_bytes(p) + rest).subrange(2 + p.len() as int, (frame_bytes(p) + rest).len() as int)
            == rest,
        split_frames(frame_bytes(p) + rest) == (seq![p] + split_frames(rest).0, split_frames(
            rest,
        ).1),
{
    let b = frame_bytes(p) + rest;
    assert(b =~= le16(p.len() as u16) + (p + rest));
    lemma_le16_roundtrip(p.len() as u16, p + rest);
    assert(from_le16(b) == p.len());
    assert(b.subrange(2, 2 + p.len() as int) =~= p);
    assert(b.subrange(2 + p.len() as int, b.len() as int) =~= rest);
}

/// A receiver that splits the byte stream of a sender gets back every payload
/// the sender framed, in order, with nothing left over.
pub proof fn lemma_stream_roundtrip(ps: Seq<Seq<u8>>)
    requires
        forall|i: int| 0 <= i < ps.len() ==> #[trigger] ps[i].len() < 65536,
    ensures
        split_frames(stream_bytes(ps)) == (ps, Seq::<u8>::empty()),
    decreases ps.len(),
{
    if ps.len() == 0 {
        assert(!frame_ready(Seq::<u8>::empty()));
    } else {
        let tail = ps.drop_first();
        assert(forall|i: int| 0 <= i < tail.len() ==> #[trigger] tail[i] == ps[i + 1]);
        lemma_stream_roundtrip(tail);
        lemma_frame_roundtrip(ps[0], stream_bytes(tail));
        assert(seq![ps[0]] + tail =~= ps);
    }
}

/// Appends a chunk just read from the stream to the buffer, then takes every
/// whole frame off the buffer, in order; an incomplete frame stays for the
/// next chunk.
pub fn receive_chunk(buf: &mut Vec<u8>, chunk: &[u8]) -> (frames: Vec<Vec<u8>>)
    ensures
        frames@.map_values(|f: Vec<u8>| f@) == split_frames(old(buf)@ + chunk@).0,
        final(buf)@ == split_frames(old(buf)@ + chunk@).1,
{
    let ghost start = buf@;
    let mut i: usize = 0;
    while i < chunk.len()
        invariant
            0 <= i <= chunk@.len(),
            buf@ == start + chunk@.subrange(0, i as int),
        decreases chunk@.len() - i,
    {
        buf.push(chunk[i]);
        i += 1;
        assert(buf@ =~= start + chunk@.subrange(0, i as int));
    }
    assert(chunk@.subrange(0, chunk@.len() as int) =~= chunk@);
    drain_frames(buf)
}

/// The frames and the leftover after the chunks of a stream have been read one
/// after another into a buffer that held `left`, as `receive_chunk` reads them.
pub open spec fn read_chunks(left: Seq<u8>, chunks: Seq<Seq<u8>>) -> (Seq<Seq<u8>>, Seq<u8>)
    decreases chunks.len(),
{
    if chunks.len() == 0 {
        (Seq::empty(), left)
    } else {
        let (fs, rest) = split_frames(left + chunks[0]);
        let (gs, last) = read_chunks(rest, chunks.drop_first());
        (fs + gs, last)
    }
}

/// Splitting two pieces of a stream one after the other gives the frames of
/// splitting them together: the frames of the first piece, then those of its
/// leftover followed by the second piece.
pub proof fn lemma_split_frames_append(a: Seq<u8>, b: Seq<u8>)
    ensures
        split_frames(a + b) == (
            split_frames(a).0 + split_frames(split_frames(a).1 + b).0,
            split_frames(split_frames(a).1 + b).1,
        ),
    decreases a.len(),
{
    if frame_ready(a) {
        let ab = a + b;
        assert(ab[0] == a[0] && ab[1] == a[1]);
        assert(frame_ready(ab));
        assert(frame_end(ab) == frame_end(a));
        let rest = a.subrange(frame_end(a), a.len() as int);
        assert(ab.subrange(frame_end(ab), ab.len() as int) =~= rest + b);
        assert(ab.subrange(2, frame_end(ab)) =~= a.subrange(2, frame_end(a)));
        lemma_split_frames_append(rest, b);
        let f = seq![a.subrange(2, frame_end(a))];
        let fs = split_frames(rest).0;
        let gs = split_frames(split_frames(rest).1 + b).0;
        assert(f + (fs + gs) =~= (f + fs) + gs);
    } else {
        assert(Seq::<Seq<u8>>::empty() + split_frames(a + b).0 =~= split_frames(a + b).0);
    }
}

/// What is left after the whole frames never starts with a whole frame.
pub proof fn lemma_leftover_incomplete(b: Seq<u8>)
    ensures
        !frame_ready(split_frames(b).1),
    decreases b.len(),
{
    if frame_ready(b) {
        lemma_leftover_incomplete(b.subrange(frame_end(b), b.len() as int));
    }
}

/// However the stream is cut into chunks, reading them one after another
/// into a buffer that holds no whole frame gives the frames, in order, and the
/// leftover of splitting the buffer and the whole stream at once.
pub proof fn lemma_chunked_reads(left: Seq<u8>, chunks: Seq<Seq<u8>>)
    requires
        !frame_ready(left),
    ensures
        read_chunks(left, chunks) == split_frames(left + chunks.flatten()),
    decreases chunks.len(),
{
    if chunks.len() == 0 {
        assert(left + chunks.flatten() =~= left);
    } else {
        lemma_leftover_incomplete(left + chunks[0]);
        let a = left + chunks[0];
        let tail = chunks.drop_first();
        lemma_chunked_reads(split_frames(a).1, tail);
        lemma_split_frames_append(a, tail.flatten());
        assert(chunks.flatten() == chunks[0] + tail.flatten());
        assert(left + chunks.flatten() =~= a + tail.flatten());
        let whole = split_frames(a + tail.flatten());
        let next = read_chunks(split_frames(a).1, tail);
        assert(read_chunks(left, chunks) == (split_frames(a).0 + next.0, next.1));
        assert(whole.0 == split_frames(a).0 + next.0);
        assert(whole.1 == next.1);
    }
}

/// A receiver that reads a sender's stream in chunks of any sizes gets back
/// every payload the sender framed, in order, each once, with nothing left
/// over.
pub proof fn lemma_chunked_stream(ps: Seq<Seq<u8>>, chunks: Seq<Seq<u8>>)
    requires
        forall|i: int| 0 <= i < ps.len() ==> #[trigger] ps[i].len() < 65536,
        chunks.flatten() == stream_bytes(ps),
    ensures
        read_chunks(Seq::empty(), chunks) == (ps, Seq::<u8>::empty()),
{
    assert(!frame_ready(Seq::<u8>::empty()));
    lemma_chunked_reads(Seq::empty(), chunks);
    assert(Seq::<u8>::empty() + chunks.flatten() =~= stream_bytes(ps));
    lemma_stream_roundtrip(ps);
}

// ---------------------------------------------------------------------------
// codes of themes and weathers
// ---------------------------------------------------------------------------

pub open spec fn theme_byte(t: Theme) -> u8 {
    match t {
        Theme::Valley => 0,
        Theme::Desert => 1,
        Theme::Frozen => 2,
        Theme::Tropical => 3,
        Theme::Forest => 4,
    }
}

pub open spec fn theme_of_byte(b: u8) -> Theme {
    if b == 0 {
        Theme::Valley
    } else if b == 1 {
        Theme::Desert
    } else if b == 2 {
        Theme::Frozen
    } else if b == 3 {
        Theme::Tropical
    } else {
        Theme::Forest
    }
}

pub open spec fn weather_byte(w: Weather) -> u8 {
    match w {
        Weather::Clear => 0,
        Weather::Rain => 1,
        Weather::Snow => 2,
        Weather::Fog => 3,
    }
}

pub open spec fn weather_of_byte(b: u8) -> Weather {
    if b == 1 {
        Weather::Rain
    } else if b == 2 {
        Weather::Snow
    } else if b == 3 {
        Weather::Fog
    } else {
        Weather::Clear
    }
}

/// The codes of themes and weathers on the wire: Valley 0, Desert 1,
/// Frozen 2, Tropical 3, Forest 4; Clear 0, Rain 1, Snow 2, Fog 3; a byte
/// beyond the themes' codes reads as the forest, one beyond the weathers' as
/// clear.
pub proof fn lemma_wire_codes(b: u8)
    ensures
        theme_byte(Theme::Valley) == 0 && theme_byte(Theme::Desert) == 1 && theme_byte(
            Theme::Frozen,
        ) == 2 && theme_byte(Theme::Tropical) == 3 && theme_byte(Theme::Forest) == 4,
        weather_byte(Weather::Clear) == 0 && weather_byte(Weather::Rain) == 1 && weather_byte(
            Weather::Snow,
        ) == 2 && weather_byte(Weather::Fog) == 3,
        b <= 4 ==> theme_byte(theme_of_byte(b)) == b,
        b > 4 ==> theme_of_byte(b) == Theme::Forest,
        b <= 3 ==> weather_byte(weather_of_byte(b)) == b,
        b > 3 ==> weather_of_byte(b) == Weather::Clear,
{
}

/// The byte that stands for a theme on the wire.
pub fn theme_code(t: Theme) -> (b: u8)
    ensures
        b == theme_byte(t),
{
    match t {
        Theme::Valley => 0,
        Theme::Desert => 1,
        Theme::Frozen => 2,
        Theme::Tropical => 3,
        Theme::Forest => 4,
    }
}

/// The theme a byte stands for; unknown bytes read as the forest.
pub fn theme_from_code(b: u8) -> (t: Theme)
    ensures
        t == theme_of_byte(b),
{
    match b {
        0 => Theme::Valley,
        1 => Theme::Desert,
        2 => Theme::Frozen,
        3 => Theme::Tropical,
        _ => Theme::Forest,
    }
}

/// The byte that stands for a weather on the wire.
pub fn weather_code(w: Weather) -> (b: u8)
    ensures
        b == weather_byte(w),
{
    match w {
        Weather::Clear => 0,
        Weather::Rain => 1,
        Weather::Snow => 2,
        Weather::Fog => 3,
    }
}

/// The weather a byte stands for; unknown bytes read as clear.
pub fn weather_from_code(b: u8) -> (w: Weather)
    ensures
        w == weather_of_byte(b),
{
    match b {
        1 => Weather::Rain,
        2 => Weather::Snow,
        3 => Weather::Fog,
        _ => Weather::Clear,
    }
}

/// Every theme and every weather reads back as itself.
pub proof fn lemma_codes_roundtrip(t: Theme, w: Weather)
    ensures
        theme_of_byte(theme_byte(t)) == t,
        weather_of_byte(weather_byte(w)) == w,
{
}

// ---------------------------------------------------------------------------
// reading at an offset
// ---------------------------------------------------------------------------

/// Reads a little-endian `u16` at offset `o`.
pub fn read_u16_at(p: &[u8], o: usize) -> (v: u16)
    requires
        o + 2 <= p@.len(),
    ensures
        v == from_le16(p@.subrange(o as int, o + 2)),
{
    p[o] as u16 + (p[o + 1] as u16) * 256
}

/// Reads a little-endian `u32` at offset `o`.
pub fn read_u32_at(p: &[u8], o: usize) -> (v: u32)
    requires
        o + 4 <= p@.len(),
    ensures
        v == from_le32(p@.subrange(o as int, o + 4)),
{
    p[o] as u32 + (p[o + 1] as u32) * 256 + (p[o + 2] as u32) * 65536 + (p[o + 3] as u32)
        * 16777216
}

/// Reads a little-endian `u64` at offset `o`.
pub fn read_u64_at(p: &[u8], o: usize) -> (v: u64)
    requires
        o + 8 <= p@.len(),
    ensures
        v == from_le64(p@.subrange(o as int, o + 8)),
{
    p[o] as u64 + (p[o + 1] as u64) * 0x100 + (p[o + 2] as u64) * 0x10000 + (p[o + 3] as u64)
        * 0x1000000 + (p[o + 4] as u64) * 0x100000000 + (p[o + 5] as u64) * 0x10000000000 + (p[o
        + 6] as u64) * 0x1000000000000 + (p[o + 7] as u64) * 0x100000000000000
}

// ---------------------------------------------------------------------------
// join (client to host)
// ---------------------------------------------------------------------------

pub open spec fn join_bytes(seed: u64, theme: Theme) -> Seq<u8> {
    seq![3u8] + le64(seed) + seq![theme_byte(theme)]
}

/// The join request: kind 3, the seed, the theme.
pub fn join_payload(seed: u64, theme: Theme) -> (p: Vec<u8>)
    ensures
        p@ == join_bytes(seed, theme),
        p@.len() == 10,
        p@[0] == 3,
        p@.subrange(1, 9) == le64(seed),
        p@[9] == theme_byte(theme),
{
    let mut p: Vec<u8> = Vec::new();
    p.push(3u8);
    le_u64(seed, &mut p);
    p.push(theme_code(theme));
    assert(p@ =~= join_bytes(seed, theme));
    assert(p@.subrange(1, 9) =~= le64(seed));
    p
}

// ---------------------------------------------------------------------------
// input (client to host)
// ---------------------------------------------------------------------------

/// One frame of player input: the movement key mask, the view angle (bits of
/// an `f32`) and whether the trigger is pulled.
#[derive(Clone, Copy, PartialEq, Eq, Structural, Debug)]
pub struct InputPacket {
    pub mask: u16,
    pub angle_bits: u32,
    pub shoot: bool,
}

pub open spec fn input_bytes(i: InputPacket) -> Seq<u8> {
    seq![1u8] + le16(i.mask) + le32(i.angle_bits) + seq![
        if i.shoot {
            1u8
        } else {
            0u8
        },
    ]
}

/// The host takes a payload as input when it is of kind 1 and 7 bytes long
/// at least.
pub open spec fn input_ok(p: Seq<u8>) -> bool {
    p.len() >= 7 && p[0] == 1
}

pub open spec fn input_from(p: Seq<u8>) -> InputPacket {
    InputPacket {
        mask: from_le16(p.subrange(1, 3)),
        angle_bits: from_le32(p.subrange(3, 7)),
        shoot: p.len() > 7 && p[7] != 0,
    }
}

/// The input payload: kind 1, the mask, the angle, the trigger.
pub fn input_payload(i: InputPacket) -> (p: Vec<u8>)
    ensures
        p@ == input_bytes(i),
        p@.len() == 8,
        p@[0] == 1,
        p@.subrange(1, 3) == le16(i.mask),
        p@.subrange(3, 7) == le32(i.angle_bits),
        p@[7] == if i.shoot {
            1u8
        } else {
            0u8
        },
{
    let mut p: Vec<u8> = Vec::new();
    p.push(1u8);
    le_u16(i.mask, &mut p);
    le_u32(i.angle_bits, &mut p);
    p.push(
        if i.shoot {
            1u8
        } else {
            0u8
        },
    );
    assert(p@ =~= input_bytes(i));
    p
}

/// Reads a player input the host received; the payload holds its kind byte
/// at least.
pub fn decode_input(p: &[u8]) -> (r: Option<InputPacket>)
    requires
        p@.len() >= 1,
    ensures
        input_ok(p@) <==> r is Some,
        r matches Some(i) ==> i == input_from(p@),
        r matches Some(i) ==> {
            &&& i.mask == from_le16(p@.subrange(1, 3))
            &&& i.angle_bits == from_le32(p@.subrange(3, 7))
            &&& i.shoot == (p@.len() > 7 && p@[7] != 0)
        },
{
    if p[0] == 1 && p.len() >= 7 {
        let mask = read_u16_at(p, 1);
        let angle_bits = read_u32_at(p, 3);
        let shoot = p.len() > 7 && p[7] != 0;
        Some(InputPacket { mask, angle_bits, shoot })
    } else {
        None
    }
}

/// What a client sends as input, the host reads back unchanged.
pub proof fn lemma_input_roundtrip(i: InputPacket)
    ensures
        input_ok(input_bytes(i)),
        input_from(input_bytes(i)) == i,
{
    let b = input_bytes(i);
    assert(b.subrange(1, 3) =~= le16(i.mask) + Seq::<u8>::empty());
    lemma_le16_roundtrip(i.mask, Seq::<u8>::empty());
    assert(b.subrange(3, 7) =~= le32(i.angle_bits) + Seq::<u8>::empty());
    lemma_le32_roundtrip(i.angle_bits, Seq::<u8>::empty());
}

// ---------------------------------------------------------------------------
// hello (host to client)
// ---------------------------------------------------------------------------

/// The host's greeting to a new client: the world to build, the client's
/// player id, and where it spawns (bits of `f32`s).
#[derive(Clone, Copy, PartialEq, Eq, Structural, Debug)]
pub struct HelloPacket {
    pub seed: u64,
    pub theme: Theme,
    pub player_id: usize,
    pub x_bits: u32,
    pub y_bits: u32,
    pub angle_bits: u32,
}

pub open spec fn hello_bytes(h: HelloPacket) -> Seq<u8> {
    seq![10u8] + le64(h.seed) + seq![theme_byte(h.theme)] + le32(h.player_id as u32) + le32(
        h.x_bits,
    ) + le32(h.y_bits) + le32(h.angle_bits)
}

/// The greeting payload: kind 10, seed, theme, id (as a `u32`), position and
/// angle.
pub fn hello_payload(h: HelloPacket) -> (p: Vec<u8>)
    ensures
        p@ == hello_bytes(h),
        p@.len() == 26,
        p@[0] == 10,
        p@.subrange(1, 9) == le64(h.seed),
        p@[9] == theme_byte(h.theme),
        p@.subrange(10, 14) == le32(h.player_id as u32),
        p@.subrange(14, 18) == le32(h.x_bits),
        p@.subrange(18, 22) == le32(h.y_bits),
        p@.subrange(22, 26) == le32(h.angle_bits),
{
    let mut p: Vec<u8> = Vec::new();
    p.push(10u8);
    le_u64(h.seed, &mut p);
    p.push(theme_code(h.theme));
    le_u32(h.player_id as u32, &mut p);
    le_u32(h.x_bits, &mut p);
    le_u32(h.y_bits, &mut p);
    le_u32(h.angle_bits, &mut p);
    assert(p@ =~= hello_bytes(h));
    assert(p@.subrange(1, 9) =~= le64(h.seed));
    assert(p@.subrange(10, 14) =~= le32(h.player_id as u32));
    assert(p@.subrange(14, 18) =~= le32(h.x_bits));
    assert(p@.subrange(18, 22) =~= le32(h.y_bits));
    assert(p@.subrange(22, 26) =~= le32(h.angle_bits));
    p
}

/// A client takes a payload as a greeting when it is of kind 10 and 26 bytes
/// long at least.
pub open spec fn hello_ok(p: Seq<u8>) -> bool {
    p.len() >= 26 && p[0] == 10
}

pub open spec fn hello_from(p: Seq<u8>) -> HelloPacket {
    HelloPacket {
        seed: from_le64(p.subrange(1, 9)),
        theme: theme_of_byte(p[9]),
        player_id: from_le32(p.subrange(10, 14)) as usize,
        x_bits: from_le32(p.subrange(14, 18)),
        y_bits: from_le32(p.subrange(18, 22)),
        angle_bits: from_le32(p.subrange(22, 26)),
    }
}

// ---------------------------------------------------------------------------
// snapshot (host to client)
// ---------------------------------------------------------------------------

/// A player as a snapshot carries it (`f32` fields as their bits).
#[derive(Clone, Copy, PartialEq, Eq, Structural, Debug)]
pub struct PlayerRecord {
    pub x_bits: u32,
    pub y_bits: u32,
    pub angle_bits: u32,
    pub hp_bits: u32,
    pub score: u32,
    pub kills: u32,
    pub dmg_t_bits: u32,
    pub dmg_dir_bits: u32,
}

/// An enemy as a snapshot carries it.
#[derive(Clone, Copy, PartialEq, Eq, Structural, Debug)]
pub struct EnemyRecord {
    pub x_bits: u32,
    pub y_bits: u32,
    pub alive: bool,
}

/// The state of a round as the host streams it.
pub struct SnapshotPacket {
    pub players: Vec<PlayerRecord>,
    pub enemies: Vec<EnemyRecord>,
    pub weather: Weather,
    pub tick: u64,
    pub remaining: u32,
    pub complete: bool,
}

pub open spec fn bool_byte(b: bool) -> u8 {
    if b {
        1
    } else {
        0
    }
}

pub open spec fn player_bytes(r: PlayerRecord) -> Seq<u8> {
    le32(r.x_bits) + le32(r.y_bits) + le32(r.angle_bits) + le32(r.hp_bits) + le32(r.score) + le32(
        r.kills,
    ) + le32(r.dmg_t_bits) + le32(r.dmg_dir_bits)
}

pub open spec fn enemy_bytes(e: EnemyRecord) -> Seq<u8> {
    le32(e.x_bits) + le32(e.y_bits) + seq![bool_byte(e.alive)]
}

pub open spec fn players_bytes(ps: Seq<PlayerRecord>) -> Seq<u8>
    decreases ps.len(),
{
    if ps.len() == 0 {
        Seq::empty()
    } else {
        players_bytes(ps.drop_last()) + player_bytes(ps.last())
    }
}

pub open spec fn enemies_bytes(es: Seq<EnemyRecord>) -> Seq<u8>
    decreases es.len(),
{
    if es.len() == 0 {
        Seq::empty()
    } else {
        enemies_bytes(es.drop_last()) + enemy_bytes(es.last())
    }
}

/// What the host sends for a snapshot: kind 11, the tick (as a `u32`), the
/// weather, the numbers of players and enemies (as bytes), the players, the
/// enemies, the enemies remaining and whether the round is complete.
pub open spec fn snapshot_bytes(
    players: Seq<PlayerRecord>,
    enemies: Seq<EnemyRecord>,
    weather: Weather,
    tick: u64,
    remaining: u32,
    complete: bool,
) -> Seq<u8> {
    seq![11u8] + le32(tick as u32) + seq![
        weather_byte(weather),
        players.len() as u8,
        enemies.len() as u8,
    ] + players_bytes(players) + enemies_bytes(enemies) + le32(remaining) + seq![
        bool_byte(complete),
    ]
}

/// Appends the 32 bytes of a player record.
fn push_player(p: &mut Vec<u8>, r: PlayerRecord)
    ensures
        final(p)@ == old(p)@ + player_bytes(r),
{
    le_u32(r.x_bits, p);
    le_u32(r.y_bits, p);
    le_u32(r.angle_bits, p);
    le_u32(r.hp_bits, p);
    le_u32(r.score, p);
    le_u32(r.kills, p);
    le_u32(r.dmg_t_bits, p);
    le_u32(r.dmg_dir_bits, p);
    assert(final(p)@ =~= old(p)@ + player_bytes(r));
}

/// Appends the 9 bytes of an enemy record.
fn push_enemy(p: &mut Vec<u8>, e: EnemyRecord)
    ensures
        final(p)@ == old(p)@ + enemy_bytes(e),
{
    le_u32(e.x_bits, p);
    le_u32(e.y_bits, p);
    p.push(
        if e.alive {
            1u8
        } else {
            0u8
        },
    );
    assert(final(p)@ =~= old(p)@ + enemy_bytes(e));
}

/// Builds the payload of a snapshot.
#[verifier::rlimit(40)]
pub fn snapshot_payload(s: &SnapshotPacket) -> (p: Vec<u8>)
    ensures
        p@ == snapshot_bytes(
            s.players@,
            s.enemies@,
            s.weather,
            s.tick,
            s.remaining,
            s.complete,
        ),
{
    let mut p: Vec<u8> = Vec::new();
    p.push(11u8);
    le_u32(s.tick as u32, &mut p);
    p.push(weather_code(s.weather));
    p.push(s.players.len() as u8);
    p.push(s.enemies.len() as u8);
    let ghost head = p@;
    let mut i: usize = 0;
    while i < s.players.len()
        invariant
            0 <= i <= s.players@.len(),
            p@ == head + players_bytes(s.players@.subrange(0, i as int)),
        decreases s.players@.len() - i,
    {
        let r = s.players[i];
        push_player(&mut p, r);
        proof {
            let sub = s.players@.subrange(0, i + 1);
            assert(sub.drop_last() =~= s.players@.subrange(0, i as int));
            assert(sub.last() == r);
            assert(p@ =~= head + players_bytes(sub));
        }
        i += 1;
    }
    assert(s.players@.subrange(0, s.players@.len() as int) =~= s.players@);
    let ghost mid = p@;
    let mut j: usize = 0;
    while j < s.enemies.len()
        invariant
            0 <= j <= s.enemies@.len(),
            p@ == mid + enemies_bytes(s.enemies@.subrange(0, j as int)),
        decreases s.enemies@.len() - j,
    {
        let e = s.enemies[j];
        push_enemy(&mut p, e);
        proof {
            let sub = s.enemies@.subrange(0, j + 1);
            assert(sub.drop_last() =~= s.enemies@.subrange(0, j as int));
            assert(sub.last() == e);
            assert(p@ =~= mid + enemies_bytes(sub));
        }
        j += 1;
    }
    assert(s.enemies@.subrange(0, s.enemies@.len() as int) =~= s.enemies@);
    le_u32(s.remaining, &mut p);
    p.push(
        if s.complete {
            1u8
        } else {
            0u8
        },
    );
    assert(p@ =~= snapshot_bytes(
        s.players@,
        s.enemies@,
        s.weather,
        s.tick,
        s.remaining,
        s.complete,
    ));
    p
}

/// A client takes a payload of kind 11 as a snapshot when it holds the
/// 8-byte header (kind, tick, weather, player count, enemy count) and all the
/// records and the trailer those counts announce.
pub open spec fn snapshot_ok(p: Seq<u8>) -> bool {
    p.len() >= 8 && p[0] == 11 && p.len() >= 8 + 32 * p[6] + 9 * p[7] + 5
}

pub open spec fn player_at(p: Seq<u8>, o: int) -> PlayerRecord {
    PlayerRecord {
        x_bits: from_le32(p.subrange(o, o + 4)),
        y_bits: from_le32(p.subrange(o + 4, o + 8)),
        angle_bits: from_le32(p.subrange(o + 8, o + 12)),
        hp_bits: from_le32(p.subrange(o + 12, o + 16)),
        score: from_le32(p.subrange(o + 16, o + 20)),
        kills: from_le32(p.subrange(o + 20, o + 24)),
        dmg_t_bits: from_le32(p.subrange(o + 24, o + 28)),
        dmg_dir_bits: from_le32(p.subrange(o + 28, o + 32)),
    }
}

pub open spec fn enemy_at(p: Seq<u8>, o: int) -> EnemyRecord {
    EnemyRecord {
        x_bits: from_le32(p.subrange(o, o + 4)),
        y_bits: from_le32(p.subrange(o + 4, o + 8)),
        alive: p[o + 8] != 0,
    }
}

pub open spec fn snap_players(p: Seq<u8>) -> Seq<PlayerRecord> {
    Seq::new(p[6] as nat, |i: int| player_at(p, 8 + 32 * i))
}

pub open spec fn snap_enemies(p: Seq<u8>) -> Seq<EnemyRecord> {
    Seq::new(p[7] as nat, |i: int| enemy_at(p, 8 + 32 * p[6] + 9 * i))
}

/// Offset of the trailer (enemies remaining, round complete).
pub open spec fn snap_trailer(p: Seq<u8>) -> int {
    8 + 32 * p[6] + 9 * p[7]
}

fn read_player(p: &[u8], o: usize) -> (r: PlayerRecord)
    requires
        o + 32 <= p.len(),
    ensures
        r == player_at(p@, o as int),
{
    PlayerRecord {
        x_bits: read_u32_at(p, o),
        y_bits: read_u32_at(p, o + 4),
        angle_bits: read_u32_at(p, o + 8),
        hp_bits: read_u32_at(p, o + 12),
        score: read_u32_at(p, o + 16),
        kills: read_u32_at(p, o + 20),
        dmg_t_bits: read_u32_at(p, o + 24),
        dmg_dir_bits: read_u32_at(p, o + 28),
    }
}

fn read_enemy(p: &[u8], o: usize) -> (r: EnemyRecord)
    requires
        o + 9 <= p.len(),
    ensures
        r == enemy_at(p@, o as int),
{
    EnemyRecord { x_bits: read_u32_at(p, o), y_bits: read_u32_at(p, o + 4), alive: p[o + 8] != 0 }
}

/// A message from the host, as the client reads it.
pub enum ServerMessage {
    Hello(HelloPacket),
    Snapshot(SnapshotPacket),
    Ignored,
}

/// Reads a payload received from the host: a greeting, a snapshot, or
/// something the client ignores (empty, unknown kind, too short).
pub fn decode_packet(p: &[u8]) -> (m: ServerMessage)
    ensures
        hello_ok(p@) <==> m is Hello,
        snapshot_ok(p@) <==> m is Snapshot,
        m matches ServerMessage::Hello(h) ==> h == hello_from(p@),
        m matches ServerMessage::Hello(h) ==> {
            &&& h.seed == from_le64(p@.subrange(1, 9))
            &&& h.theme == theme_of_byte(p@[9])
            &&& h.player_id == from_le32(p@.subrange(10, 14)) as usize
            &&& h.x_bits == from_le32(p@.subrange(14, 18))
            &&& h.y_bits == from_le32(p@.subrange(18, 22))
            &&& h.angle_bits == from_le32(p@.subrange(22, 26))
        },
        m matches ServerMessage::Snapshot(s) ==> {
            &&& s.players@ == snap_players(p@)
            &&& s.enemies@ == snap_enemies(p@)
            &&& s.weather == weather_of_byte(p@[5])
            &&& s.tick == from_le32(p@.subrange(1, 5)) as u64
            &&& s.remaining == from_le32(
                p@.subrange(snap_trailer(p@), snap_trailer(p@) + 4),
            )
            &&& s.complete == (p@[snap_trailer(p@) + 4] != 0)
        },
        m matches ServerMessage::Snapshot(s) ==> {
            &&& s.players@.len() == p@[6]
            &&& s.enemies@.len() == p@[7]
            &&& forall|i: int|
                0 <= i < p@[6] ==> {
                    let r = #[trigger] s.players@[i];
                    let o = 8 + 32 * i;
                    &&& r.x_bits == from_le32(p@.subrange(o, o + 4))
                    &&& r.y_bits == from_le32(p@.subrange(o + 4, o + 8))
                    &&& r.angle_bits == from_le32(p@.subrange(o + 8, o + 12))
                    &&& r.hp_bits == from_le32(p@.subrange(o + 12, o + 16))
                    &&& r.score == from_le32(p@.subrange(o + 16, o + 20))
                    &&& r.kills == from_le32(p@.subrange(o + 20, o + 24))
                    &&& r.dmg_t_bits == from_le32(p@.subrange(o + 24, o + 28))
                    &&& r.dmg_dir_bits == from_le32(p@.subrange(o + 28, o + 32))
                }
            &&& forall|j: int|
                0 <= j < p@[7] ==> {
                    let e = #[trigger] s.enemies@[j];
                    let o = 8 + 32 * p@[6] + 9 * j;
                    &&& e.x_bits == from_le32(p@.subrange(o, o + 4))
                    &&& e.y_bits == from_le32(p@.subrange(o + 4, o + 8))
                    &&& e.alive == (p@[o + 8] != 0)
                }
            &&& s.remaining == from_le32(
                p@.subrange(8 + 32 * p@[6] + 9 * p@[7], 8 + 32 * p@[6] + 9 * p@[7] + 4),
            )
            &&& s.complete == (p@[8 + 32 * p@[6] + 9 * p@[7] + 4] != 0)
        },
{
    if p.len() == 0 {
        return ServerMessage::Ignored;
    }
    if p[0] == 10 && p.len() >= 26 {
        let seed = read_u64_at(p, 1);
        let theme = theme_from_code(p[9]);
        let id = read_u32_at(p, 10) as usize;
        let x_bits = read_u32_at(p, 14);
        let y_bits = read_u32_at(p, 18);
        let angle_bits = read_u32_at(p, 22);
        return ServerMessage::Hello(
            HelloPacket { seed, theme, player_id: id, x_bits, y_bits, angle_bits },
        );
    }
    if p[0] != 11 || p.len() < 8 {
        return ServerMessage::Ignored;
    }
    let weather = weather_from_code(p[5]);
    let npl = p[6] as usize;
    let nen = p[7] as usize;
    let need = 8 + npl * 32 + nen * 9 + 5;
    if p.len() < need {
        return ServerMessage::Ignored;
    }
    let mut players: Vec<PlayerRecord> = Vec::new();
    let mut i: usize = 0;
    while i < npl
        invariant
            0 <= i <= npl,
            npl == p@[6],
            nen == p@[7],
            p@.len() >= 8 + npl * 32 + nen * 9 + 5,
            players@ =~= Seq::new(i as nat, |k: int| player_at(p@, 8 + 32 * k)),
        decreases npl - i,
    {
        let r = read_player(p, 8 + i * 32);
        players.push(r);
        i += 1;
    }
    let mut enemies: Vec<EnemyRecord> = Vec::new();
    let mut j: usize = 0;
    while j < nen
        invariant
            0 <= j <= nen,
            npl == p@[6],
            nen == p@[7],
            p@.len() >= 8 + npl * 32 + nen * 9 + 5,
            enemies@ =~= Seq::new(j as nat, |k: int| enemy_at(p@, 8 + 32 * npl + 9 * k)),
        decreases nen - j,
    {
        let e = read_enemy(p, 8 + npl * 32 + j * 9);
        enemies.push(e);
        j += 1;
    }
    let to = 8 + npl * 32 + nen * 9;
    let remaining = read_u32_at(p, to);
    let complete = p[to + 4] != 0;
    let tick = read_u32_at(p, 1) as u64;
    ServerMessage::Snapshot(SnapshotPacket { players, enemies, weather, tick, remaining, complete })
}

/// What the host greets a client with, the client reads back unchanged (for
/// player ids that fit the 32 bits the greeting carries).
#[verifier::spinoff_prover]
pub proof fn lemma_hello_roundtrip(h: HelloPacket)
    requires
        h.player_id <= u32::MAX,
    ensures
        hello_ok(hello_bytes(h)),
        hello_from(hello_bytes(h)) == h,
{
    let b = hello_bytes(h);
    let e = Seq::<u8>::empty();
    assert(b.subrange(1, 9) =~= le64(h.seed) + e);
    lemma_le64_roundtrip(h.seed, e);
    assert(b.subrange(10, 14) =~= le32(h.player_id as u32) + e);
    lemma_le32_roundtrip(h.player_id as u32, e);
    assert(b.subrange(14, 18) =~= le32(h.x_bits) + e);
    lemma_le32_roundtrip(h.x_bits, e);
    assert(b.subrange(18, 22) =~= le32(h.y_bits) + e);
    lemma_le32_roundtrip(h.y_bits, e);
    assert(b.subrange(22, 26) =~= le32(h.angle_bits) + e);
    lemma_le32_roundtrip(h.angle_bits, e);
    assert(b[9] == theme_byte(h.theme));
}

/// Reading the four bytes written for a `u32` gives the `u32`.
proof fn lemma_le32_exact(v: u32)
    ensures
        from_le32(le32(v)) == v,
{
    lemma_le32_roundtrip(v, Seq::<u8>::empty());
    assert(le32(v) + Seq::<u8>::empty() =~= le32(v));
}

proof fn lemma_players_bytes_len(ps: Seq<PlayerRecord>)
    ensures
        players_bytes(ps).len() == 32 * ps.len(),
    decreases ps.len(),
{
    if ps.len() > 0 {
        lemma_players_bytes_len(ps.drop_last());
    }
}

proof fn lemma_enemies_bytes_len(es: Seq<EnemyRecord>)
    ensures
        enemies_bytes(es).len() == 9 * es.len(),
    decreases es.len(),
{
    if es.len() > 0 {
        lemma_enemies_bytes_len(es.drop_last());
    }
}

/// The `i`-th player's bytes sit at offset `32 * i`.
proof fn lemma_players_bytes_at(ps: Seq<PlayerRecord>, i: int)
    requires
        0 <= i < ps.len(),
    ensures
        players_bytes(ps).subrange(32 * i, 32 * i + 32) == player_bytes(ps[i]),
    decreases ps.len(),
{
    lemma_players_bytes_len(ps.drop_last());
    let pre = players_bytes(ps.drop_last());
    assert(players_bytes(ps) == pre + player_bytes(ps.last()));
    if i == ps.len() - 1 {
        assert(players_bytes(ps).subrange(32 * i, 32 * i + 32) =~= player_bytes(ps[i]));
    } else {
        lemma_players_bytes_at(ps.drop_last(), i);
        assert(players_bytes(ps).subrange(32 * i, 32 * i + 32) =~= pre.subrange(
            32 * i,
            32 * i + 32,
        ));
    }
}

/// The `i`-th enemy's bytes sit at offset `9 * i`.
proof fn lemma_enemies_bytes_at(es: Seq<EnemyRecord>, i: int)
    requires
        0 <= i < es.len(),
    ensures
        enemies_bytes(es).subrange(9 * i, 9 * i + 9) == enemy_bytes(es[i]),
    decreases es.len(),
{
    lemma_enemies_bytes_len(es.drop_last());
    let pre = enemies_bytes(es.drop_last());
    assert(enemies_bytes(es) == pre + enemy_bytes(es.last()));
    if i == es.len() - 1 {
        assert(enemies_bytes(es).subrange(9 * i, 9 * i + 9) =~= enemy_bytes(es[i]));
    } else {
        lemma_enemies_bytes_at(es.drop_last(), i);
        assert(enemies_bytes(es).subrange(9 * i, 9 * i + 9) =~= pre.subrange(9 * i, 9 * i + 9));
    }
}

/// Four bytes taken at offset `k` of a copy of `q` at offset `o` of `b`.
proof fn lemma_quad(b: Seq<u8>, o: int, q: Seq<u8>, k: int)
    requires
        0 <= o,
        0 <= k,
        k + 4 <= q.len(),
        o + q.len() <= b.len(),
        b.subrange(o, o + q.len()) == q,
    ensures
        b.subrange(o + k, o + k + 4) == q.subrange(k, k + 4),
{
    assert forall|j: int| 0 <= j < 4 implies #[trigger] b.subrange(o + k, o + k + 4)[j]
        == q.subrange(k, k + 4)[j] by {
        assert(b.subrange(o, o + q.len())[k + j] == b[o + k + j]);
    }
    assert(b.subrange(o + k, o + k + 4) =~= q.subrange(k, k + 4));
}

/// A player record read where its 32 bytes were written is the record.
proof fn lemma_player_at_bytes(b: Seq<u8>, o: int, r: PlayerRecord)
    requires
        0 <= o,
        o + 32 <= b.len(),
        b.subrange(o, o + 32) == player_bytes(r),
    ensures
        player_at(b, o) == r,
{
    let a0 = le32(r.x_bits);
    let a1 = le32(r.y_bits);
    let a2 = le32(r.angle_bits);
    let a3 = le32(r.hp_bits);
    let a4 = le32(r.score);
    let a5 = le32(r.kills);
    let a6 = le32(r.dmg_t_bits);
    let a7 = le32(r.dmg_dir_bits);
    let q = player_bytes(r);
    assert(q == a0 + a1 + a2 + a3 + a4 + a5 + a6 + a7);
    assert(q.len() == 32);
    assert(q.subrange(0, 4) =~= a0);
    assert(q.subrange(4, 8) =~= a1);
    assert(q.subrange(8, 12) =~= a2);
    assert(q.subrange(12, 16) =~= a3);
    assert(q.subrange(16, 20) =~= a4);
    assert(q.subrange(20, 24) =~= a5);
    assert(q.subrange(24, 28) =~= a6);
    assert(q.subrange(28, 32) =~= a7);
    lemma_quad(b, o, q, 0);
    lemma_quad(b, o, q, 4);
    lemma_quad(b, o, q, 8);
    lemma_quad(b, o, q, 12);
    lemma_quad(b, o, q, 16);
    lemma_quad(b, o, q, 20);
    lemma_quad(b, o, q, 24);
    lemma_quad(b, o, q, 28);
    lemma_le32_exact(r.x_bits);
    lemma_le32_exact(r.y_bits);
    lemma_le32_exact(r.angle_bits);
    lemma_le32_exact(r.hp_bits);
    lemma_le32_exact(r.score);
    lemma_le32_exact(r.kills);
    lemma_le32_exact(r.dmg_t_bits);
    lemma_le32_exact(r.dmg_dir_bits);
}

/// An enemy record read where its 9 bytes were written is the record.
proof fn lemma_enemy_at_bytes(b: Seq<u8>, o: int, e: EnemyRecord)
    requires
        0 <= o,
        o + 9 <= b.len(),
        b.subrange(o, o + 9) == enemy_bytes(e),
    ensures
        enemy_at(b, o) == e,
{
    let q = enemy_bytes(e);
    assert(q.len() == 9);
    assert(q.subrange(0, 4) =~= le32(e.x_bits));
    assert(q.subrange(4, 8) =~= le32(e.y_bits));
    assert(q[8] == bool_byte(e.alive));
    lemma_quad(b, o, q, 0);
    lemma_quad(b, o, q, 4);
    assert(b.subrange(o, o + 9)[8] == b[o + 8]);
    lemma_le32_exact(e.x_bits);
    lemma_le32_exact(e.y_bits);
}

/// Where a player record's 32 bytes sit at offset `o` of `b`, each field's
/// four little-endian bytes sit at its own offset, in the order x, y, angle,
/// hit points, score, kills, damage time, damage direction.
proof fn lemma_player_bytes_fields(b: Seq<u8>, o: int, r: PlayerRecord)
    requires
        0 <= o,
        o + 32 <= b.len(),
        b.subrange(o, o + 32) == player_bytes(r),
    ensures
        b.subrange(o, o + 4) == le32(r.x_bits),
        b.subrange(o + 4, o + 8) == le32(r.y_bits),
        b.subrange(o + 8, o + 12) == le32(r.angle_bits),
        b.subrange(o + 12, o + 16) == le32(r.hp_bits),
        b.subrange(o + 16, o + 20) == le32(r.score),
        b.subrange(o + 20, o + 24) == le32(r.kills),
        b.subrange(o + 24, o + 28) == le32(r.dmg_t_bits),
        b.subrange(o + 28, o + 32) == le32(r.dmg_dir_bits),
{
    let q = player_bytes(r);
    assert(q.len() == 32);
    assert(q.subrange(0, 4) =~= le32(r.x_bits));
    assert(q.subrange(4, 8) =~= le32(r.y_bits));
    assert(q.subrange(8, 12) =~= le32(r.angle_bits));
    assert(q.subrange(12, 16) =~= le32(r.hp_bits));
    assert(q.subrange(16, 20) =~= le32(r.score));
    assert(q.subrange(20, 24) =~= le32(r.kills));
    assert(q.subrange(24, 28) =~= le32(r.dmg_t_bits));
    assert(q.subrange(28, 32) =~= le32(r.dmg_dir_bits));
    lemma_quad(b, o, q, 0);
    lemma_quad(b, o, q, 4);
    lemma_quad(b, o, q, 8);
    lemma_quad(b, o, q, 12);
    lemma_quad(b, o, q, 16);
    lemma_quad(b, o, q, 20);
    lemma_quad(b, o, q, 24);
    lemma_quad(b, o, q, 28);
}

/// The bytes of a snapshot, at fixed offsets: kind 11 at 0, the tick's low
/// 32 bits at 1 ..= 4, the weather at 5, the numbers of players and enemies at
/// 6 and 7; then 32 bytes per player (x, y, angle, hit points, score, kills,
/// damage time, damage direction, four bytes each), 9 per enemy (x, y, then
/// 1 if alive, else 0), and last the enemies remaining (four bytes) and 1 if
/// the round is complete, else 0.
#[verifier::spinoff_prover]
#[verifier::rlimit(60)]
pub proof fn lemma_snapshot_layout(
    players: Seq<PlayerRecord>,
    enemies: Seq<EnemyRecord>,
    weather: Weather,
    tick: u64,
    remaining: u32,
    complete: bool,
)
    ensures
        ({
            let b = snapshot_bytes(players, enemies, weather, tick, remaining, complete);
            let t: int = (8 + 32 * players.len() + 9 * enemies.len()) as int;
            &&& b.len() == t + 5
            &&& b[0] == 11
            &&& b.subrange(1, 5) == le32(tick as u32)
            &&& b[5] == weather_byte(weather)
            &&& b[6] == players.len() as u8
            &&& b[7] == enemies.len() as u8
            &&& forall|i: int|
                0 <= i < players.len() ==> {
                    let r = #[trigger] players[i];
                    let o = 8 + 32 * i;
                    &&& b.subrange(o, o + 4) == le32(r.x_bits)
                    &&& b.subrange(o + 4, o + 8) == le32(r.y_bits)
                    &&& b.subrange(o + 8, o + 12) == le32(r.angle_bits)
                    &&& b.subrange(o + 12, o + 16) == le32(r.hp_bits)
                    &&& b.subrange(o + 16, o + 20) == le32(r.score)
                    &&& b.subrange(o + 20, o + 24) == le32(r.kills)
                    &&& b.subrange(o + 24, o + 28) == le32(r.dmg_t_bits)
                    &&& b.subrange(o + 28, o + 32) == le32(r.dmg_dir_bits)
                }
            &&& forall|j: int|
                0 <= j < enemies.len() ==> {
                    let e = #[trigger] enemies[j];
                    let o = 8 + 32 * players.len() + 9 * j;
                    &&& b.subrange(o, o + 4) == le32(e.x_bits)
                    &&& b.subrange(o + 4, o + 8) == le32(e.y_bits)
                    &&& b[o + 8] == if e.alive {
                        1u8
                    } else {
                        0u8
                    }
                }
            &&& b.subrange(t, t + 4) == le32(remaining)
            &&& b[t + 4] == if complete {
                1u8
            } else {
                0u8
            }
        }),
{
    let b = snapshot_bytes(players, enemies, weather, tick, remaining, complete);
    let np = players.len() as int;
    let ne = enemies.len() as int;
    let pb = players_bytes(players);
    let eb = enemies_bytes(enemies);
    lemma_players_bytes_len(players);
    lemma_enemies_bytes_len(enemies);
    let head = seq![11u8] + le32(tick as u32) + seq![
        weather_byte(weather),
        players.len() as u8,
        enemies.len() as u8,
    ];
    assert(head.len() == 8);
    assert(b == head + pb + eb + le32(remaining) + seq![bool_byte(complete)]);
    let t = 8 + 32 * np + 9 * ne;
    assert(b.subrange(1, 5) =~= le32(tick as u32));
    assert(b.subrange(t, t + 4) =~= le32(remaining));
    assert forall|i: int| 0 <= i < np implies {
        let r = #[trigger] players[i];
        let o = 8 + 32 * i;
        &&& b.subrange(o, o + 4) == le32(r.x_bits)
        &&& b.subrange(o + 4, o + 8) == le32(r.y_bits)
        &&& b.subrange(o + 8, o + 12) == le32(r.angle_bits)
        &&& b.subrange(o + 12, o + 16) == le32(r.hp_bits)
        &&& b.subrange(o + 16, o + 20) == le32(r.score)
        &&& b.subrange(o + 20, o + 24) == le32(r.kills)
        &&& b.subrange(o + 24, o + 28) == le32(r.dmg_t_bits)
        &&& b.subrange(o + 28, o + 32) == le32(r.dmg_dir_bits)
    } by {
        lemma_players_bytes_at(players, i);
        assert(b.subrange(8 + 32 * i, 8 + 32 * i + 32) =~= pb.subrange(32 * i, 32 * i + 32));
        lemma_player_bytes_fields(b, 8 + 32 * i, players[i]);
    }
    assert forall|j: int| 0 <= j < ne implies {
        let e = #[trigger] enemies[j];
        let o = 8 + 32 * np + 9 * j;
        &&& b.subrange(o, o + 4) == le32(e.x_bits)
        &&& b.subrange(o + 4, o + 8) == le32(e.y_bits)
        &&& b[o + 8] == if e.alive {
            1u8
        } else {
            0u8
        }
    } by {
        let o = 8 + 32 * np + 9 * j;
        lemma_enemies_bytes_at(enemies, j);
        assert(b.subrange(o, o + 9) =~= eb.subrange(9 * j, 9 * j + 9));
        let q = enemy_bytes(enemies[j]);
        assert(q.subrange(0, 4) =~= le32(enemies[j].x_bits));
        assert(q.subrange(4, 8) =~= le32(enemies[j].y_bits));
        lemma_quad(b, o, q, 0);
        lemma_quad(b, o, q, 4);
        assert(b.subrange(o, o + 9)[8] == b[o + 8]);
    }
}

/// What the host streams as a snapshot, the client reads back as that
/// snapshot: the same players, enemies, weather, enemies remaining and
/// completion, and the tick modulo 2^32 (for at most 255 players and 255
/// enemies, the counts the header's bytes can carry).
#[verifier::spinoff_prover]
pub proof fn lemma_snapshot_roundtrip(
    players: Seq<PlayerRecord>,
    enemies: Seq<EnemyRecord>,
    weather: Weather,
    tick: u64,
    remaining: u32,
    complete: bool,
)
    requires
        players.len() <= 255,
        enemies.len() <= 255,
    ensures
        ({
            let b = snapshot_bytes(players, enemies, weather, tick, remaining, complete);
            &&& snapshot_ok(b)
            &&& !hello_ok(b)
            &&& snap_players(b) == players
            &&& snap_enemies(b) == enemies
            &&& weather_of_byte(b[5]) == weather
            &&& from_le32(b.subrange(1, 5)) == tick as u32
            &&& from_le32(b.subrange(snap_trailer(b), snap_trailer(b) + 4)) == remaining
            &&& (b[snap_trailer(b) + 4] != 0) == complete
        }),
{
    let b = snapshot_bytes(players, enemies, weather, tick, remaining, complete);
    let np = players.len() as int;
    let ne = enemies.len() as int;
    let pb = players_bytes(players);
    let eb = enemies_bytes(enemies);
    lemma_players_bytes_len(players);
    lemma_enemies_bytes_len(enemies);
    let head = seq![11u8] + le32(tick as u32) + seq![
        weather_byte(weather),
        players.len() as u8,
        enemies.len() as u8,
    ];
    assert(head.len() == 8);
    assert(b == head + pb + eb + le32(remaining) + seq![bool_byte(complete)]);
    assert(b[0] == 11);
    assert(b[5] == weather_byte(weather));
    assert(b[6] == np);
    assert(b[7] == ne);
    assert(b.len() == 8 + 32 * np + 9 * ne + 5);
    assert(snap_trailer(b) == 8 + 32 * np + 9 * ne);
    assert(b.subrange(1, 5) =~= le32(tick as u32));
    lemma_le32_exact(tick as u32);
    assert(b.subrange(snap_trailer(b), snap_trailer(b) + 4) =~= le32(remaining));
    lemma_le32_exact(remaining);
    assert(b[snap_trailer(b) + 4] == bool_byte(complete));
    assert forall|i: int| 0 <= i < np implies #[trigger] player_at(b, 8 + 32 * i) == players[i] by {
        lemma_players_bytes_at(players, i);
        assert(b.subrange(8 + 32 * i, 8 + 32 * i + 32) =~= pb.subrange(32 * i, 32 * i + 32));
        lemma_player_at_bytes(b, 8 + 32 * i, players[i]);
    }
    assert(snap_players(b) =~= players);
    assert forall|i: int| 0 <= i < ne implies #[trigger] enemy_at(b, 8 + 32 * np + 9 * i)
        == enemies[i] by {
        lemma_enemies_bytes_at(enemies, i);
        assert(b.subrange(8 + 32 * np + 9 * i, 8 + 32 * np + 9 * i + 9) =~= eb.subrange(
            9 * i,
            9 * i + 9,
        ));
        lemma_enemy_at_bytes(b, 8 + 32 * np + 9 * i, enemies[i]);
    }
    assert(snap_enemies(b) =~= enemies);
}

/// Least time between two input packets that carry no shot.
pub const INPUT_INTERVAL_MS: u128 = 33;

/// Whether a client sends its input now: only while connected, and at most
/// once per 33 ms unless the input fires a shot.
pub fn send_due(connected: bool, since_last_ms: u128, shoot: bool) -> (r: bool)
    ensures
        r == (connected && (since_last_ms >= 33 || shoot)),
{
    if !connected {
        return false;
    }
    if since_last_ms < INPUT_INTERVAL_MS && !shoot {
        return false;
    }
    true
}

} // verus!
