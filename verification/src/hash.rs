//! Keyed hashing (SipHash-2-4) and an open-addressing hash map.
//!
//! `siphash` defines the hash of a byte sequence under a 128-bit key.
//! `State` computes it while the bytes arrive in pieces.
use vstd::prelude::*;
use crate::container::Container;

verus! {

/// The four 64-bit lanes of the hash state.
#[derive(Clone, Copy)]
pub struct Lanes {
    pub v0: u64,
    pub v1: u64,
    pub v2: u64,
    pub v3: u64,
}

/// `x` rotated left by `b` bits, for `0 < b < 64`.
pub open spec fn rotl(x: u64, b: u64) -> u64 {
    (x << b) | (x >> ((64 - b) as u64))
}

/// One round of the mixing function.
pub open spec fn sip_round(v: Lanes) -> Lanes {
    let v0 = v.v0.wrapping_add(v.v1);
    let v1 = rotl(v.v1, 13) ^ v0;
    let v0 = rotl(v0, 32);
    let v2 = v.v2.wrapping_add(v.v3);
    let v3 = rotl(v.v3, 16) ^ v2;
    let v0 = v0.wrapping_add(v3);
    let v3 = rotl(v3, 21) ^ v0;
    let v2 = v2.wrapping_add(v1);
    let v1 = rotl(v1, 17) ^ v2;
    let v2 = rotl(v2, 32);
    Lanes { v0, v1, v2, v3 }
}

/// The lanes before any byte went in.
pub open spec fn initial_lanes(k0: u64, k1: u64) -> Lanes {
    Lanes {
        v0: k0 ^ 0x736f6d6570736575,
        v1: k1 ^ 0x646f72616e646f6d,
        v2: k0 ^ 0x6c7967656e657261,
        v3: k1 ^ 0x7465646279746573,
    }
}

/// The lanes after the 64-bit word `m` went in.
#[verifier::opaque]
pub open spec fn absorb_word(v: Lanes, m: u64) -> Lanes {
    let v = Lanes { v3: v.v3 ^ m, ..v };
    let v = sip_round(sip_round(v));
    Lanes { v0: v.v0 ^ m, ..v }
}

/// The eight bytes of `s` from position `i` on, read as a little-endian word.
#[verifier::opaque]
pub open spec fn le64(s: Seq<u8>, i: int) -> u64 {
    (s[i] as u64) | (s[i + 1] as u64) << 8 | (s[i + 2] as u64) << 16 | (s[i + 3] as u64) << 24 | (s[i
        + 4] as u64) << 32 | (s[i + 5] as u64) << 40 | (s[i + 6] as u64) << 48 | (s[i + 7] as u64)
        << 56
}

/// The lanes after the first `n` eight-byte blocks of `s` went in.
pub open spec fn absorb_blocks(v: Lanes, s: Seq<u8>, n: nat) -> Lanes
    decreases n,
{
    if n == 0 {
        v
    } else {
        absorb_word(absorb_blocks(v, s, (n - 1) as nat), le64(s, 8 * (n - 1)))
    }
}

/// `b` with `byte`, moved `shift` bits up, or-ed in where `present` holds.
pub open spec fn or_byte(b: u64, present: bool, byte: u8, shift: u64) -> u64 {
    if present {
        b | (byte as u64) << shift
    } else {
        b
    }
}

/// The last word that goes in: the length of `s` modulo 256 in the top
/// byte, below it the bytes of `s` behind its last full block.
pub open spec fn last_word(s: Seq<u8>) -> u64 {
    let base = 8 * (s.len() / 8) as int;
    let rest = s.len() % 8;
    let b = (((s.len() % 256) as u64) & 0xff) << 56;
    let b = or_byte(b, rest > 0, s[base], 0);
    let b = or_byte(b, rest > 1, s[base + 1], 8);
    let b = or_byte(b, rest > 2, s[base + 2], 16);
    let b = or_byte(b, rest > 3, s[base + 3], 24);
    let b = or_byte(b, rest > 4, s[base + 4], 32);
    let b = or_byte(b, rest > 5, s[base + 5], 40);
    let b = or_byte(b, rest > 6, s[base + 6], 48);
    b
}

/// The hash that the lanes `v` give once the last word `b` went in.
pub open spec fn finish(v: Lanes, b: u64) -> u64 {
    let v = Lanes { v3: v.v3 ^ b, ..v };
    let v = sip_round(sip_round(v));
    let v = Lanes { v0: v.v0 ^ b, v2: v.v2 ^ 0xff, ..v };
    let v = sip_round(sip_round(sip_round(sip_round(v))));
    v.v0 ^ v.v1 ^ v.v2 ^ v.v3
}

/// SipHash-2-4 of the bytes `s` under the key `(k0, k1)`.
pub open spec fn siphash(k0: u64, k1: u64, s: Seq<u8>) -> u64 {
    finish(absorb_blocks(initial_lanes(k0, k1), s, s.len() / 8), last_word(s))
}

/// The first `n` blocks depend on the first `8 n` bytes only.
proof fn lemma_absorb_blocks_prefix(v: Lanes, s: Seq<u8>, t: Seq<u8>, n: nat)
    requires
        8 * n <= s.len(),
        8 * n <= t.len(),
        forall|i: int| 0 <= i < 8 * n ==> s[i] == t[i],
    ensures
        absorb_blocks(v, s, n) == absorb_blocks(v, t, n),
    decreases n,
{
    if n > 0 {
        lemma_absorb_blocks_prefix(v, s, t, (n - 1) as nat);
        lemma_le64_same(s, 8 * (n - 1), t, 8 * (n - 1));
    }
}

/// Equal bytes give equal words.
proof fn lemma_le64_same(s: Seq<u8>, i: int, t: Seq<u8>, j: int)
    requires
        forall|k: int| i <= k < i + 8 ==> #[trigger] s[k] == t[k - i + j],
    ensures
        le64(s, i) == le64(t, j),
{
    reveal(le64);
    assert(s[i + 0] == t[j + 0]);
    assert(s[i + 1] == t[j + 1]);
    assert(s[i + 2] == t[j + 2]);
    assert(s[i + 3] == t[j + 3]);
    assert(s[i + 4] == t[j + 4]);
    assert(s[i + 5] == t[j + 5]);
    assert(s[i + 6] == t[j + 6]);
    assert(s[i + 7] == t[j + 7]);
}

/// One more block: the lanes after `n + 1` blocks are those after `n`
/// blocks with the word at byte `8 n` let in.
proof fn lemma_absorb_next_block(v: Lanes, s: Seq<u8>, n: nat)
    ensures
        absorb_blocks(v, s, n + 1) == absorb_word(absorb_blocks(v, s, n), le64(s, 8 * n as int)),
{
}

/// A length counter that wraps round still has the low byte of the true length.
proof fn lemma_wrapped_length(counter: usize, more: usize, len: nat, total: usize)
    requires
        counter as int % 256 == len % 256,
        total == counter.wrapping_add(more),
    ensures
        total as int % 256 == (len + more) % 256,
{
    assert(usize::MAX == 0xffff_ffff || usize::MAX == 0xffff_ffff_ffff_ffff);
}

/// A write that does not fill the open block leaves the number of blocks as it is.
proof fn lemma_short_write(len: nat, more: nat)
    requires
        len % 8 + more < 8,
    ensures
        (len + more) / 8 == len / 8,
        (len + more) % 8 == len % 8 + more,
{
}

/// Rotates `x` left by `b` bits.
fn rotate(x: u64, b: u64) -> (r: u64)
    requires
        0 < b < 64,
    ensures
        r == rotl(x, b),
{
    (x << b) | (x >> (64 - b))
}

/// Runs one round of the mixing function.
fn compress(v: Lanes) -> (r: Lanes)
    ensures
        r == sip_round(v),
{
    let v0 = v.v0.wrapping_add(v.v1);
    let v1 = rotate(v.v1, 13) ^ v0;
    let v0 = rotate(v0, 32);
    let v2 = v.v2.wrapping_add(v.v3);
    let v3 = rotate(v.v3, 16) ^ v2;
    let v0 = v0.wrapping_add(v3);
    let v3 = rotate(v3, 21) ^ v0;
    let v2 = v2.wrapping_add(v1);
    let v1 = rotate(v1, 17) ^ v2;
    let v2 = rotate(v2, 32);
    Lanes { v0, v1, v2, v3 }
}

/// Lets the word `m` into the lanes.
fn absorb(v: Lanes, m: u64) -> (r: Lanes)
    ensures
        r == absorb_word(v, m),
{
    reveal(absorb_word);
    let v = Lanes { v0: v.v0, v1: v.v1, v2: v.v2, v3: v.v3 ^ m };
    let v = compress(compress(v));
    Lanes { v0: v.v0 ^ m, v1: v.v1, v2: v.v2, v3: v.v3 }
}

/// Reads the eight bytes of `buf` from position `i` on as a little-endian word.
fn u8to64_le(buf: &[u8], i: usize) -> (r: u64)
    requires
        i + 8 <= buf@.len(),
    ensures
        r == le64(buf@, i as int),
{
    reveal(le64);
    (buf[i] as u64) | (buf[i + 1] as u64) << 8 | (buf[i + 2] as u64) << 16 | (buf[i + 3] as u64)
        << 24 | (buf[i + 4] as u64) << 32 | (buf[i + 5] as u64) << 40 | (buf[i + 6] as u64) << 48
        | (buf[i + 7] as u64) << 56
}

/// Copies `count` bytes of `msg`, from position `from` on, into `tail` at
/// position `at`.
fn copy_bytes(tail: &mut [u8; 8], at: usize, msg: &[u8], from: usize, count: usize)
    requires
        at + count <= 8,
        from + count <= msg@.len(),
    ensures
        forall|j: int| at <= j < at + count ==> #[trigger] final(tail)@[j] == msg@[from + j - at],
        forall|j: int| 0 <= j < 8 && !(at <= j < at + count) ==> #[trigger] final(tail)@[j] == old(tail)@[j],
{
    let n = msg.len();
    let mut t: usize = 0;
    while t < count
        invariant
            t <= count,
            at + count <= 8,
            from + count <= n,
            n == msg@.len(),
            forall|j: int| at <= j < at + t ==> #[trigger] tail@[j] == msg@[from + j - at],
            forall|j: int| 0 <= j < 8 && !(at <= j < at + t) ==> #[trigger] tail@[j] == old(tail)@[j],
        decreases count - t,
    {
        tail[at + t] = msg[from + t];
        t = t + 1;
    }
}

/// The running state of a hash computation. Its view is the sequence of
/// bytes written so far.
pub struct State {
    k0: u64,
    k1: u64,
    length: usize,
    lanes: Lanes,
    tail: [u8; 8],
    ntail: usize,
    written: Ghost<Seq<u8>>,
}

impl State {
    #[verifier::type_invariant]
    spec fn inv(&self) -> bool {
        let s = self.written@;
        &&& self.ntail == s.len() % 8
        &&& self.length as int % 256 == s.len() % 256
        &&& self.lanes == absorb_blocks(initial_lanes(self.k0, self.k1), s, s.len() / 8)
        &&& forall|j: int| 0 <= j < self.ntail ==> self.tail@[j] == s[8 * (s.len() / 8) + j]
    }

    /// The bytes written so far.
    pub closed spec fn view(&self) -> Seq<u8> {
        self.written@
    }

    /// The key of the computation.
    pub closed spec fn keys(&self) -> (u64, u64) {
        (self.k0, self.k1)
    }

    /// Starts a computation under the key `(key0, key1)`.
    pub fn new(key0: u64, key1: u64) -> (r: State)
        ensures
            r@ == Seq::<u8>::empty(),
            r.keys() == (key0, key1),
    {
        State {
            k0: key0,
            k1: key1,
            length: 0,
            lanes: Lanes {
                v0: key0 ^ 0x736f6d6570736575,
                v1: key1 ^ 0x646f72616e646f6d,
                v2: key0 ^ 0x6c7967656e657261,
                v3: key1 ^ 0x7465646279746573,
            },
            tail: [0, 0, 0, 0, 0, 0, 0, 0],
            ntail: 0,
            written: Ghost(Seq::empty()),
        }
    }

    /// Returns the hash of the bytes written so far.
    pub fn result(&self) -> (r: u64)
        ensures
            r == siphash(self.keys().0, self.keys().1, self@),
    {
        proof {
            use_type_invariant(self);
        }
        let ghost s = self.written@;
        let ghost base = 8 * (s.len() / 8) as int;
        let l = self.length as u64;
        assert(l & 0xff == l % 256) by (bit_vector);
        assert((((s.len() % 256) as u64) & 0xff) == l & 0xff) by {
            let m = (s.len() % 256) as u64;
            assert(m & 0xff == m % 256) by (bit_vector);
        }
        let mut b: u64 = (l & 0xff) << 56;
        if self.ntail > 0 {
            b = b | (self.tail[0] as u64) << 0;
        }
        if self.ntail > 1 {
            b = b | (self.tail[1] as u64) << 8;
        }
        if self.ntail > 2 {
            b = b | (self.tail[2] as u64) << 16;
        }
        if self.ntail > 3 {
            b = b | (self.tail[3] as u64) << 24;
        }
        if self.ntail > 4 {
            b = b | (self.tail[4] as u64) << 32;
        }
        if self.ntail > 5 {
            b = b | (self.tail[5] as u64) << 40;
        }
        if self.ntail > 6 {
            b = b | (self.tail[6] as u64) << 48;
        }
        assert(b == last_word(s));
        let v = self.lanes;
        let v = Lanes { v0: v.v0, v1: v.v1, v2: v.v2, v3: v.v3 ^ b };
        let v = compress(compress(v));
        let v = Lanes { v0: v.v0 ^ b, v1: v.v1, v2: v.v2 ^ 0xff, v3: v.v3 };
        let v = compress(compress(compress(compress(v))));
        v.v0 ^ v.v1 ^ v.v2 ^ v.v3
    }

    /// Lets the bytes of `msg` into the computation, behind those written before.
    pub fn write(&mut self, msg: &[u8])
        ensures
            final(self)@ == old(self)@ + msg@,
            final(self).keys() == old(self).keys(),
    {
        proof {
            use_type_invariant(&*self);
        }
        let ghost s = self.written@;
        let ghost t = s + msg@;
        let ghost first = initial_lanes(self.k0, self.k1);
        let ghost blocks = s.len() / 8;
        let length = msg.len();
        let total = self.length.wrapping_add(length);
        proof {
            lemma_wrapped_length(self.length, length, s.len(), total);
            lemma_absorb_blocks_prefix(first, s, t, blocks);
        }
        let k0 = self.k0;
        let k1 = self.k1;
        let mut lanes = self.lanes;
        let mut tail = self.tail;
        let mut needed: usize = 0;
        if self.ntail != 0 {
            needed = 8 - self.ntail;
            if length < needed {
                copy_bytes(&mut tail, self.ntail, msg, 0, length);
                let ntail = self.ntail + length;
                proof {
                    lemma_short_write(s.len(), length as nat);
                }
                *self = State { k0, k1, length: total, lanes, tail, ntail, written: Ghost(t) };
                return ;
            }
            copy_bytes(&mut tail, self.ntail, msg, 0, needed);
            proof {
                lemma_le64_same(tail@, 0, t, 8 * blocks as int);
                lemma_absorb_next_block(first, t, blocks);
            }
            let m = u8to64_le(tail.as_slice(), 0);
            lanes = absorb(lanes, m);
        }
        let mut i = needed;
        while length - i >= 8
            invariant
                needed <= i <= length,
                length == msg@.len(),
                t == s + msg@,
                (s.len() + i) % 8 == 0,
                lanes == absorb_blocks(first, t, ((s.len() + i) / 8) as nat),
            decreases length - i,
        {
            let mi = u8to64_le(msg, i);
            proof {
                lemma_le64_same(msg@, i as int, t, s.len() + i);
                lemma_absorb_next_block(first, t, ((s.len() + i) / 8) as nat);
            }
            lanes = absorb(lanes, mi);
            i = i + 8;
        }
        let left = length - i;
        copy_bytes(&mut tail, 0, msg, i, left);
        *self = State { k0, k1, length: total, lanes, tail, ntail: left, written: Ghost(t) };
    }

    /// Forgets the bytes written so far; the key stays.
    pub fn reset(&mut self)
        ensures
            final(self)@ == Seq::<u8>::empty(),
            final(self).keys() == old(self).keys(),
    {
        let fresh = State::new(self.k0, self.k1);
        *self = fresh;
    }
}

/// A value that can be fed to a hash computation as a sequence of bytes.
pub trait HashBytes {
    /// The bytes that stand for the value.
    spec fn bytes(&self) -> Seq<u8>;

    /// Writes the bytes of the value into `state`.
    fn hash_bytes(&self, state: &mut State)
        ensures
            final(state)@ == old(state)@ + self.bytes(),
            final(state).keys() == old(state).keys(),
    ;
}

/// A value with a keyed 64-bit hash.
pub trait Hash {
    /// The hash of the value under the key `(k0, k1)`.
    spec fn hashed(&self, k0: u64, k1: u64) -> u64;

    /// Computes the hash of the value under the key `(k0, k1)`.
    fn hash(&self, k0: u64, k1: u64) -> (h: u64)
        ensures
            h == self.hashed(k0, k1),
    ;
}

impl<A: HashBytes> Hash for A {
    open spec fn hashed(&self, k0: u64, k1: u64) -> u64 {
        siphash(k0, k1, self.bytes())
    }

    fn hash(&self, k0: u64, k1: u64) -> (h: u64) {
        let mut s = State::new(k0, k1);
        self.hash_bytes(&mut s);
        assert(s@ =~= self.bytes());
        s.result()
    }
}

impl HashBytes for () {
    open spec fn bytes(&self) -> Seq<u8> {
        Seq::empty()
    }

    fn hash_bytes(&self, state: &mut State) {
        assert(state@ + Seq::<u8>::empty() =~= state@);
    }
}

impl HashBytes for bool {
    open spec fn bytes(&self) -> Seq<u8> {
        seq![if *self { 1u8 } else { 0u8 }]
    }

    fn hash_bytes(&self, state: &mut State) {
        let b: [u8; 1] = [if *self { 1u8 } else { 0u8 }];
        assert(b@ =~= self.bytes());
        state.write(b.as_slice());
    }
}

impl HashBytes for u8 {
    open spec fn bytes(&self) -> Seq<u8> {
        seq![*self]
    }

    fn hash_bytes(&self, state: &mut State) {
        let b: [u8; 1] = [*self];
        assert(b@ =~= self.bytes());
        state.write(b.as_slice());
    }
}

impl HashBytes for u16 {
    open spec fn bytes(&self) -> Seq<u8> {
        seq![*self as u8, (*self >> 8) as u8]
    }

    fn hash_bytes(&self, state: &mut State) {
        let b: [u8; 2] = [#[verifier::truncate] (*self as u8), #[verifier::truncate] ((*self >> 8) as u8)];
        assert(b@ =~= self.bytes());
        state.write(b.as_slice());
    }
}

impl HashBytes for u32 {
    open spec fn bytes(&self) -> Seq<u8> {
        seq![*self as u8, (*self >> 8) as u8, (*self >> 16) as u8, (*self >> 24) as u8]
    }

    fn hash_bytes(&self, state: &mut State) {
        let b: [u8; 4] = [
            #[verifier::truncate] (*self as u8),
            #[verifier::truncate] ((*self >> 8) as u8),
            #[verifier::truncate] ((*self >> 16) as u8),
            #[verifier::truncate] ((*self >> 24) as u8),
        ];
        assert(b@ =~= self.bytes());
        state.write(b.as_slice());
    }
}

impl HashBytes for u64 {
    open spec fn bytes(&self) -> Seq<u8> {
        seq![
            *self as u8,
            (*self >> 8) as u8,
            (*self >> 16) as u8,
            (*self >> 24) as u8,
            (*self >> 32) as u8,
            (*self >> 40) as u8,
            (*self >> 48) as u8,
            (*self >> 56) as u8,
        ]
    }

    fn hash_bytes(&self, state: &mut State) {
        let b: [u8; 8] = [
            #[verifier::truncate] (*self as u8),
            #[verifier::truncate] ((*self >> 8) as u8),
            #[verifier::truncate] ((*self >> 16) as u8),
            #[verifier::truncate] ((*self >> 24) as u8),
            #[verifier::truncate] ((*self >> 32) as u8),
            #[verifier::truncate] ((*self >> 40) as u8),
            #[verifier::truncate] ((*self >> 48) as u8),
            #[verifier::truncate] ((*self >> 56) as u8),
        ];
        assert(b@ =~= self.bytes());
        state.write(b.as_slice());
    }
}

impl HashBytes for i8 {
    open spec fn bytes(&self) -> Seq<u8> {
        (*self as u8).bytes()
    }

    fn hash_bytes(&self, state: &mut State) {
        (#[verifier::truncate] (*self as u8)).hash_bytes(state)
    }
}

impl HashBytes for i16 {
    open spec fn bytes(&self) -> Seq<u8> {
        (*self as u16).bytes()
    }

    fn hash_bytes(&self, state: &mut State) {
        (#[verifier::truncate] (*self as u16)).hash_bytes(state)
    }
}

impl HashBytes for i32 {
    open spec fn bytes(&self) -> Seq<u8> {
        (*self as u32).bytes()
    }

    fn hash_bytes(&self, state: &mut State) {
        (#[verifier::truncate] (*self as u32)).hash_bytes(state)
    }
}

impl HashBytes for i64 {
    open spec fn bytes(&self) -> Seq<u8> {
        (*self as u64).bytes()
    }

    fn hash_bytes(&self, state: &mut State) {
        (#[verifier::truncate] (*self as u64)).hash_bytes(state)
    }
}

impl HashBytes for char {
    open spec fn bytes(&self) -> Seq<u8> {
        (*self as u32).bytes()
    }

    fn hash_bytes(&self, state: &mut State) {
        (*self as u32).hash_bytes(state)
    }
}

impl HashBytes for usize {
    open spec fn bytes(&self) -> Seq<u8> {
        (*self as u64).bytes()
    }

    fn hash_bytes(&self, state: &mut State) {
        (*self as u64).hash_bytes(state)
    }
}

impl HashBytes for isize {
    open spec fn bytes(&self) -> Seq<u8> {
        (*self as usize).bytes()
    }

    fn hash_bytes(&self, state: &mut State) {
        (#[verifier::truncate] (*self as usize)).hash_bytes(state)
    }
}

/// The bytes of the elements of `s`, one element after the other.
pub open spec fn concat_bytes<A: HashBytes>(s: Seq<A>) -> Seq<u8>
    decreases s.len(),
{
    if s.len() == 0 {
        Seq::empty()
    } else {
        concat_bytes(s.drop_last()) + s.last().bytes()
    }
}

impl<'a, A: HashBytes> HashBytes for &'a [A] {
    open spec fn bytes(&self) -> Seq<u8> {
        (self@.len() as usize).bytes() + concat_bytes(self@)
    }

    fn hash_bytes(&self, state: &mut State) {
        let n = self.len();
        let ghost before = state@;
        n.hash_bytes(state);
        let mut i: usize = 0;
        assert(state@ =~= before + n.bytes() + concat_bytes(self@.take(0)));
        while i < n
            invariant
                i <= n,
                n == self@.len(),
                state@ == before + n.bytes() + concat_bytes(self@.take(i as int)),
                state.keys() == old(state).keys(),
            decreases n - i,
        {
            self[i].hash_bytes(state);
            proof {
                let next = self@.take(i + 1);
                assert(next.drop_last() =~= self@.take(i as int));
                assert(next.last() == self@[i as int]);
                assert(state@ =~= before + n.bytes() + concat_bytes(next));
            }
            i = i + 1;
        }
        assert(self@.take(n as int) =~= self@);
        assert(state@ =~= before + (n.bytes() + concat_bytes(self@)));
    }
}

/// One occupied slot of the table: a key with its value and the hash of the key.
struct Bucket<K, V> {
    hash: usize,
    key: K,
    value: V,
}

/// The slots of a table.
type Slots<K, V> = Seq<Option<Bucket<K, V>>>;

/// What a search for a key ends with: the slot that holds the key, the
/// free slot where the key would go, or neither, where no slot is free.
enum SearchResult {
    FoundEntry(usize),
    FoundHole(usize),
    TableFull,
}

/// How many slots one walks from slot `a` to reach slot `b` in a ring of `cap` slots.
spec fn ring_dist(a: int, b: int, cap: int) -> int {
    if b >= a {
        b - a
    } else {
        b - a + cap
    }
}

/// The hash as it is stored with a key: the 64-bit hash cut to the width of `usize`.
spec fn stored_hash<K: Hash>(k: K, k0: u64, k1: u64) -> usize {
    k.hashed(k0, k1) as usize
}

/// Slot `i` holds the key `k`.
spec fn holds_key<K, V>(b: Slots<K, V>, i: int, k: K) -> bool {
    0 <= i < b.len() && b[i].is_some() && b[i].unwrap().key == k
}

/// The slot where the search for the key in slot `i` starts.
spec fn home<K, V>(b: Slots<K, V>, i: int) -> int {
    (b[i].unwrap().hash as int) % (b.len() as int)
}

/// Every slot on the way from the home of the key in slot `i` to slot `i` is occupied.
spec fn chain_ok<K, V>(b: Slots<K, V>, i: int) -> bool {
    b[i].is_some() ==> forall|t: int|
        0 <= t < b.len() && ring_dist(home(b, i), t, b.len() as int) < ring_dist(
            home(b, i),
            i,
            b.len() as int,
        ) ==> (#[trigger] b[t]).is_some()
}

/// Each key is stored with its own hash, and no key is in two slots.
spec fn entries_ok<K: Hash, V>(b: Slots<K, V>, k0: u64, k1: u64) -> bool {
    &&& b.len() > 0
    &&& forall|i: int|
        0 <= i < b.len() && (#[trigger] b[i]).is_some() ==> b[i].unwrap().hash == stored_hash(
            b[i].unwrap().key,
            k0,
            k1,
        )
    &&& forall|i: int, j: int|
        0 <= i < b.len() && 0 <= j < b.len() && i != j && (#[trigger] b[i]).is_some() && (
        #[trigger] b[j]).is_some() ==> b[i].unwrap().key != b[j].unwrap().key
}

/// The table is consistent but for the keys in the `pending` slots from
/// `from` on, whose way from home may be broken.
spec fn table_ok_except<K: Hash, V>(
    b: Slots<K, V>,
    k0: u64,
    k1: u64,
    from: int,
    pending: int,
) -> bool {
    &&& entries_ok(b, k0, k1)
    &&& forall|i: int|
        0 <= i < b.len() && ring_dist(from, i, b.len() as int) >= pending ==> #[trigger] chain_ok(
            b,
            i,
        )
}

/// The table is consistent: a search from a key's home meets the key before any free slot.
spec fn table_ok<K: Hash, V>(b: Slots<K, V>, k0: u64, k1: u64) -> bool {
    table_ok_except(b, k0, k1, 0, 0)
}

/// The keys of the table with their values.
spec fn table_map<K, V>(b: Slots<K, V>) -> Map<K, V> {
    Map::new(
        |k: K| exists|i: int| holds_key(b, i, k),
        |k: K| b[choose|i: int| holds_key(b, i, k)].unwrap().value,
    )
}

/// The number of occupied slots.
spec fn occupied<K, V>(b: Slots<K, V>) -> nat
    decreases b.len(),
{
    if b.len() == 0 {
        0
    } else {
        occupied(b.drop_last()) + if b.last().is_some() { 1nat } else { 0nat }
    }
}

/// There are no more occupied slots than slots, and as many only where
/// every slot is occupied.
proof fn lemma_occupied_bound<K, V>(b: Slots<K, V>)
    ensures
        occupied(b) <= b.len(),
        occupied(b) == b.len() <==> forall|i: int| 0 <= i < b.len() ==> (#[trigger] b[i]).is_some(),
    decreases b.len(),
{
    if b.len() > 0 {
        let front = b.drop_last();
        lemma_occupied_bound(front);
        if occupied(b) == b.len() {
            assert forall|i: int| 0 <= i < b.len() implies (#[trigger] b[i]).is_some() by {
                if i < front.len() {
                    assert(front[i].is_some());
                }
            }
        }
        if forall|i: int| 0 <= i < b.len() ==> (#[trigger] b[i]).is_some() {
            assert forall|i: int| 0 <= i < front.len() implies (#[trigger] front[i]).is_some() by {
                assert(b[i].is_some());
            }
            assert(b.last().is_some());
        }
    }
}

/// Writing a slot changes the count by what the slot gains or loses.
proof fn lemma_occupied_update<K, V>(b: Slots<K, V>, i: int, slot: Option<Bucket<K, V>>)
    requires
        0 <= i < b.len(),
    ensures
        occupied(b.update(i, slot)) + (if b[i].is_some() { 1int } else { 0int }) == occupied(b) + (
        if slot.is_some() { 1int } else { 0int }),
    decreases b.len(),
{
    let after = b.update(i, slot);
    if i == b.len() - 1 {
        assert(after.drop_last() =~= b.drop_last());
    } else {
        lemma_occupied_update(b.drop_last(), i, slot);
        assert(after.drop_last() =~= b.drop_last().update(i, slot));
    }
}

/// A table without any occupied slot holds no key.
proof fn lemma_empty_table<K: Hash, V>(b: Slots<K, V>, k0: u64, k1: u64)
    requires
        b.len() > 0,
        forall|i: int| 0 <= i < b.len() ==> (#[trigger] b[i]).is_none(),
    ensures
        table_ok(b, k0, k1),
        table_map(b) == Map::<K, V>::empty(),
        occupied(b) == 0,
    decreases b.len(),
{
    assert(table_map(b) =~= Map::<K, V>::empty());
    assert forall|i: int| 0 <= i < b.len() implies #[trigger] chain_ok(b, i) by {
        assert(b[i].is_none());
    }
    if b.len() > 1 {
        let front = b.drop_last();
        assert forall|i: int| 0 <= i < front.len() implies (#[trigger] front[i]).is_none() by {
            assert(b[i].is_none());
        }
        lemma_empty_table(front, k0, k1);
    } else {
        assert(occupied(b.drop_last()) == 0);
    }
    assert(b.last().is_none());
}

/// In a table without two slots for one key, the map gives for a key the
/// value in the slot that holds the key, and has no key that no slot holds.
proof fn lemma_table_map<K: Hash, V>(b: Slots<K, V>, k0: u64, k1: u64)
    requires
        entries_ok(b, k0, k1),
    ensures
        forall|i: int|
            0 <= i < b.len() && (#[trigger] b[i]).is_some() ==> table_map(b).contains_key(
                b[i].unwrap().key,
            ) && table_map(b)[b[i].unwrap().key] == b[i].unwrap().value,
        forall|k: K|
            #[trigger] table_map(b).contains_key(k) <==> exists|i: int| holds_key(b, i, k),
{
    assert forall|i: int| 0 <= i < b.len() && (#[trigger] b[i]).is_some() implies table_map(
        b,
    ).contains_key(b[i].unwrap().key) && table_map(b)[b[i].unwrap().key] == b[i].unwrap().value by {
        let k = b[i].unwrap().key;
        assert(holds_key(b, i, k));
        let j = choose|j: int| holds_key(b, j, k);
        assert(b[j].is_some());
        assert(j == i);
    }
}

/// Putting a key that the table lacks into a free slot adds it to the map.
proof fn lemma_map_after_fill<K: Hash, V>(
    b: Slots<K, V>,
    k0: u64,
    k1: u64,
    i: int,
    bucket: Bucket<K, V>,
)
    requires
        entries_ok(b, k0, k1),
        0 <= i < b.len(),
        b[i].is_none(),
        bucket.hash == stored_hash(bucket.key, k0, k1),
        forall|j: int| !holds_key(b, j, bucket.key),
    ensures
        entries_ok(b.update(i, Some(bucket)), k0, k1),
        table_map(b.update(i, Some(bucket))) == table_map(b).insert(bucket.key, bucket.value),
{
    let after = b.update(i, Some(bucket));
    assert forall|x: int, y: int|
        0 <= x < after.len() && 0 <= y < after.len() && x != y && (#[trigger] after[x]).is_some() && (
        #[trigger] after[y]).is_some() implies after[x].unwrap().key != after[y].unwrap().key by {
        if x == i {
            assert(b[y].is_some());
            assert(!holds_key(b, y, bucket.key));
        } else if y == i {
            assert(b[x].is_some());
            assert(!holds_key(b, x, bucket.key));
        } else {
            assert(b[x].is_some() && b[y].is_some());
        }
    }
    assert forall|x: int| 0 <= x < after.len() && (#[trigger] after[x]).is_some() implies after[x].unwrap().hash
        == stored_hash(after[x].unwrap().key, k0, k1) by {
        if x != i {
            assert(b[x].is_some());
        }
    }
    lemma_table_map(b, k0, k1);
    lemma_table_map(after, k0, k1);
    let want = table_map(b).insert(bucket.key, bucket.value);
    assert forall|k: K| table_map(after).contains_key(k) <==> want.contains_key(k) by {
        if table_map(after).contains_key(k) {
            let x = choose|x: int| holds_key(after, x, k);
            if x != i {
                assert(holds_key(b, x, k));
            }
        }
        if want.contains_key(k) {
            if k == bucket.key {
                assert(holds_key(after, i, k));
            } else {
                let x = choose|x: int| holds_key(b, x, k);
                assert(holds_key(after, x, k));
            }
        }
    }
    assert forall|k: K| table_map(after).contains_key(k) implies table_map(after)[k] == want[k] by {
        let x = choose|x: int| holds_key(after, x, k);
        assert(after[x].is_some());
        if x != i {
            assert(b[x].is_some());
        }
    }
    assert(table_map(after) =~= want);
}

/// Emptying a slot takes its key out of the map.
proof fn lemma_map_after_take<K: Hash, V>(b: Slots<K, V>, k0: u64, k1: u64, i: int)
    requires
        entries_ok(b, k0, k1),
        0 <= i < b.len(),
        b[i].is_some(),
    ensures
        entries_ok(b.update(i, None), k0, k1),
        table_map(b.update(i, None)) == table_map(b).remove(b[i].unwrap().key),
        forall|j: int| !holds_key(b.update(i, None), j, b[i].unwrap().key),
{
    let after = b.update(i, None::<Bucket<K, V>>);
    let gone = b[i].unwrap().key;
    assert forall|x: int, y: int|
        0 <= x < after.len() && 0 <= y < after.len() && x != y && (#[trigger] after[x]).is_some() && (
        #[trigger] after[y]).is_some() implies after[x].unwrap().key != after[y].unwrap().key by {
        assert(b[x].is_some() && b[y].is_some());
    }
    assert forall|x: int| 0 <= x < after.len() && (#[trigger] after[x]).is_some() implies after[x].unwrap().hash
        == stored_hash(after[x].unwrap().key, k0, k1) by {
        assert(b[x].is_some());
    }
    assert forall|j: int| !holds_key(after, j, gone) by {
        if holds_key(after, j, gone) {
            assert(b[j].is_some());
            assert(b[i].is_some());
        }
    }
    lemma_table_map(b, k0, k1);
    lemma_table_map(after, k0, k1);
    let want = table_map(b).remove(gone);
    assert forall|k: K| table_map(after).contains_key(k) <==> want.contains_key(k) by {
        if table_map(after).contains_key(k) {
            let x = choose|x: int| holds_key(after, x, k);
            assert(holds_key(b, x, k));
        }
        if want.contains_key(k) {
            let x = choose|x: int| holds_key(b, x, k);
            assert(x != i);
            assert(holds_key(after, x, k));
        }
    }
    assert forall|k: K| table_map(after).contains_key(k) implies table_map(after)[k] == want[k] by {
        let x = choose|x: int| holds_key(after, x, k);
        assert(after[x].is_some());
        assert(b[x].is_some());
    }
    assert(table_map(after) =~= want);
}

/// The slot `d` places after slot `a` in a ring of `cap` slots.
spec fn ring_at(a: int, d: int, cap: int) -> int {
    if a + d >= cap {
        a + d - cap
    } else {
        a + d
    }
}

/// Slot `t` holds the key `k` with the hash `hash`.
spec fn matches_key<K, V>(b: Slots<K, V>, t: int, hash: usize, k: K) -> bool {
    b[t].is_some() && b[t].unwrap().hash == hash && b[t].unwrap().key == k
}

/// What a search for `k` from the home of `hash` must end with.
spec fn search_ok<K, V>(b: Slots<K, V>, hash: usize, k: K, r: SearchResult) -> bool {
    let cap = b.len() as int;
    let start = (hash as int) % cap;
    match r {
        SearchResult::FoundEntry(i) => i < cap && matches_key(b, i as int, hash, k),
        SearchResult::FoundHole(i) => i < cap && b[i as int].is_none() && forall|t: int|
            0 <= t < cap && ring_dist(start, t, cap) < ring_dist(start, i as int, cap) ==> (
            #[trigger] b[t]).is_some() && !matches_key(b, t, hash, k),
        SearchResult::TableFull => forall|t: int|
            0 <= t < cap ==> (#[trigger] b[t]).is_some() && !matches_key(b, t, hash, k),
    }
}

/// The slot where the search for a key with the hash `h` starts in a table
/// of `len_buckets` slots.
fn to_bucket(h: usize, len_buckets: usize) -> (r: usize)
    requires
        len_buckets > 0,
    ensures
        r == (h as int) % (len_buckets as int),
        r < len_buckets,
{
    h % len_buckets
}

/// The slot after `idx` in a ring of `len_buckets` slots.
fn next_bucket(idx: usize, len_buckets: usize) -> (r: usize)
    requires
        idx < len_buckets,
    ensures
        r == ring_at(idx as int, 1, len_buckets as int),
        r < len_buckets,
{
    proof {
        if idx + 1 < len_buckets {
            vstd::arithmetic::div_mod::lemma_small_mod((idx + 1) as nat, len_buckets as nat);
        } else {
            vstd::arithmetic::div_mod::lemma_mod_self_0(len_buckets as int);
        }
    }
    (idx + 1) % len_buckets
}

/// Calls `op` for the slots of a table of `len_buckets` slots, one after
/// the other from the home of `hash` on, until `op` returns `false` or every
/// slot was seen. Returns whether every slot was seen, and else the slot for
/// which `op` returned `false`.
fn bucket_sequence<F: Fn(usize) -> bool>(len_buckets: usize, hash: usize, op: F) -> (r: (bool, usize))
    requires
        len_buckets > 0,
        forall|i: usize| i < len_buckets ==> call_requires(op, (i,)),
    ensures
        r.1 < len_buckets,
        !r.0 ==> call_ensures(op, (r.1,), false),
        forall|t: usize|
            t < len_buckets && (r.0 || ring_dist(
                (hash as int) % (len_buckets as int),
                t as int,
                len_buckets as int,
            ) < ring_dist((hash as int) % (len_buckets as int), r.1 as int, len_buckets as int))
                ==> call_ensures(op, (t,), true),
{
    let start_idx = to_bucket(hash, len_buckets);
    let mut idx = start_idx;
    let mut seen: usize = 0;
    loop
        invariant
            start_idx == (hash as int) % (len_buckets as int),
            seen < len_buckets,
            idx < len_buckets,
            idx == ring_at(start_idx as int, seen as int, len_buckets as int),
            forall|i: usize| i < len_buckets ==> call_requires(op, (i,)),
            forall|t: usize|
                t < len_buckets && ring_dist(start_idx as int, t as int, len_buckets as int) < seen
                    ==> call_ensures(op, (t,), true),
        decreases len_buckets - seen,
    {
        if !op(idx) {
            return (false, idx);
        }
        idx = next_bucket(idx, len_buckets);
        if idx == start_idx {
            assert forall|t: usize| t < len_buckets implies call_ensures(op, (t,), true) by {
                assert(ring_dist(start_idx as int, t as int, len_buckets as int) < seen + 1);
            }
            return (true, idx);
        }
        seen = seen + 1;
    }
}

/// Walks the slots from the home of `hash` on, until it meets the key `k`
/// or a free slot, or has seen every slot.
fn search<K: Hash + crate::order::Eq, V>(buckets: &Vec<Option<Bucket<K, V>>>, hash: usize, k: &K) -> (r:
    SearchResult)
    requires
        buckets@.len() > 0,
    ensures
        search_ok(buckets@, hash, *k, r),
{
    let len_buckets = buckets.len();
    let passes = |i: usize| -> (go_on: bool)
        requires
            i < buckets@.len(),
        ensures
            go_on == (buckets@[i as int].is_some() && !matches_key(buckets@, i as int, hash, *k)),
        {
            match &buckets[i] {
                Some(bkt) => !(bkt.hash == hash && k.eq(&bkt.key)),
                None => false,
            }
        };
    let (all_seen, idx) = bucket_sequence(len_buckets, hash, passes);
    proof {
        let start = (hash as int) % (len_buckets as int);
        assert forall|t: int|
            0 <= t < len_buckets && (all_seen || ring_dist(start, t, len_buckets as int) < ring_dist(
                start,
                idx as int,
                len_buckets as int,
            )) implies (#[trigger] buckets@[t]).is_some() && !matches_key(buckets@, t, hash, *k) by {
            assert(call_ensures(passes, (t as usize,), true));
        }
    }
    if all_seen {
        SearchResult::TableFull
    } else {
        match &buckets[idx] {
            Some(_) => SearchResult::FoundEntry(idx),
            None => SearchResult::FoundHole(idx),
        }
    }
}

/// A table with a free slot has a first free slot behind any slot `a`:
/// one with only occupied slots between `a` and itself.
proof fn lemma_first_hole<K, V>(b: Slots<K, V>, a: int, d: int) -> (hole: int)
    requires
        0 <= a < b.len(),
        1 <= d <= b.len(),
        exists|t: int| 0 <= t < b.len() && t != a && (#[trigger] b[t]).is_none(),
        forall|t: int|
            0 <= t < b.len() && 1 <= ring_dist(a, t, b.len() as int) < d ==> (#[trigger] b[t]).is_some(),
    ensures
        0 <= hole < b.len(),
        hole != a,
        b[hole].is_none(),
        forall|t: int|
            0 <= t < b.len() && 1 <= ring_dist(a, t, b.len() as int) < ring_dist(
                a,
                hole,
                b.len() as int,
            ) ==> (#[trigger] b[t]).is_some(),
    decreases b.len() - d,
{
    let cap = b.len() as int;
    if d == cap {
        let t = choose|t: int| 0 <= t < b.len() && t != a && (#[trigger] b[t]).is_none();
        assert(1 <= ring_dist(a, t, cap) < d);
        assert(false);
        0
    } else {
        let here = ring_at(a, d, cap);
        if b[here].is_none() {
            here
        } else {
            assert forall|t: int| 0 <= t < b.len() && 1 <= ring_dist(a, t, cap) < d + 1 implies (
            #[trigger] b[t]).is_some() by {
                if ring_dist(a, t, cap) == d {
                    assert(t == here);
                }
            }
            lemma_first_hole(b, a, d + 1)
        }
    }
}

/// Filling a free slot keeps the table consistent where the slots on the
/// way from the key's home to that slot are occupied.
proof fn lemma_fill_keeps_table<K: Hash, V>(
    b: Slots<K, V>,
    k0: u64,
    k1: u64,
    from: int,
    pending: int,
    i: int,
    bucket: Bucket<K, V>,
)
    requires
        table_ok_except(b, k0, k1, from, pending),
        0 <= i < b.len(),
        b[i].is_none(),
        bucket.hash == stored_hash(bucket.key, k0, k1),
        forall|j: int| !holds_key(b, j, bucket.key),
        b.len() <= usize::MAX,
        search_ok(b, bucket.hash, bucket.key, SearchResult::FoundHole(i as usize)),
    ensures
        table_ok_except(b.update(i, Some(bucket)), k0, k1, from, pending),
        table_map(b.update(i, Some(bucket))) == table_map(b).insert(bucket.key, bucket.value),
{
    let after = b.update(i, Some(bucket));
    let cap = b.len() as int;
    lemma_map_after_fill(b, k0, k1, i, bucket);
    assert forall|j: int| 0 <= j < after.len() && ring_dist(from, j, cap) >= pending implies #[trigger] chain_ok(
        after,
        j,
    ) by {
        if j == i {
            assert forall|t: int|
                0 <= t < cap && ring_dist(home(after, i), t, cap) < ring_dist(home(after, i), i, cap) implies (
            #[trigger] after[t]).is_some() by {
                assert(b[t].is_some());
            }
        } else {
            assert(chain_ok(b, j));
            if after[j].is_some() {
                assert forall|t: int|
                    0 <= t < cap && ring_dist(home(after, j), t, cap) < ring_dist(
                        home(after, j),
                        j,
                        cap,
                    ) implies (#[trigger] after[t]).is_some() by {
                    if t != i {
                        assert(b[t].is_some());
                    }
                }
            }
        }
    }
}

/// Writing a new value into the slot of a key keeps the table consistent.
proof fn lemma_replace_keeps_table<K: Hash, V>(
    b: Slots<K, V>,
    k0: u64,
    k1: u64,
    i: int,
    bucket: Bucket<K, V>,
)
    requires
        table_ok(b, k0, k1),
        0 <= i < b.len(),
        matches_key(b, i, bucket.hash, bucket.key),
    ensures
        table_ok(b.update(i, Some(bucket)), k0, k1),
        table_map(b.update(i, Some(bucket))) == table_map(b).insert(bucket.key, bucket.value),
        occupied(b.update(i, Some(bucket))) == occupied(b),
{
    let after = b.update(i, Some(bucket));
    let cap = b.len() as int;
    lemma_occupied_update(b, i, Some(bucket));
    assert forall|x: int, y: int|
        0 <= x < after.len() && 0 <= y < after.len() && x != y && (#[trigger] after[x]).is_some() && (
        #[trigger] after[y]).is_some() implies after[x].unwrap().key != after[y].unwrap().key by {
        assert(b[x].is_some() && b[y].is_some());
    }
    assert forall|x: int| 0 <= x < after.len() && (#[trigger] after[x]).is_some() implies after[x].unwrap().hash
        == stored_hash(after[x].unwrap().key, k0, k1) by {
        assert(b[x].is_some());
    }
    assert forall|j: int| 0 <= j < after.len() implies #[trigger] chain_ok(after, j) by {
        assert(chain_ok(b, j));
        assert(ring_dist(0, j, cap) >= 0);
        if after[j].is_some() {
            assert(b[j].is_some());
            assert(home(after, j) == home(b, j));
            assert forall|t: int|
                0 <= t < cap && ring_dist(home(after, j), t, cap) < ring_dist(home(after, j), j, cap) implies (
            #[trigger] after[t]).is_some() by {
                assert(b[t].is_some());
            }
        }
    }
    lemma_table_map(b, k0, k1);
    lemma_table_map(after, k0, k1);
    let want = table_map(b).insert(bucket.key, bucket.value);
    assert forall|k: K| table_map(after).contains_key(k) <==> want.contains_key(k) by {
        if table_map(after).contains_key(k) {
            let x = choose|x: int| holds_key(after, x, k);
            if x != i {
                assert(holds_key(b, x, k));
            }
        }
        if want.contains_key(k) {
            if k == bucket.key {
                assert(holds_key(after, i, k));
            } else {
                let x = choose|x: int| holds_key(b, x, k);
                assert(x != i);
                assert(holds_key(after, x, k));
            }
        }
    }
    assert forall|k: K| table_map(after).contains_key(k) implies table_map(after)[k] == want[k] by {
        let x = choose|x: int| holds_key(after, x, k);
        assert(after[x].is_some());
        if x != i {
            assert(b[x].is_some());
            assert(b[i].is_some());
        }
    }
    assert(table_map(after) =~= want);
}

/// In a consistent table a search that ends at a free slot shows that the
/// key is in no slot.
proof fn lemma_hole_means_absent<K: Hash, V>(b: Slots<K, V>, k0: u64, k1: u64, hash: usize, k: K, i: int)
    requires
        table_ok(b, k0, k1),
        hash == stored_hash(k, k0, k1),
        0 <= i < b.len(),
        b.len() <= usize::MAX,
        search_ok(b, hash, k, SearchResult::FoundHole(i as usize)),
    ensures
        forall|j: int| !holds_key(b, j, k),
        !table_map(b).contains_key(k),
{
    let cap = b.len() as int;
    let start = (hash as int) % cap;
    assert forall|j: int| !holds_key(b, j, k) by {
        if holds_key(b, j, k) {
            assert(b[j].is_some());
            assert(b[j].unwrap().hash == hash);
            assert(home(b, j) == start);
            assert(ring_dist(0, j, cap) >= 0);
            assert(chain_ok(b, j));
            if ring_dist(start, j, cap) < ring_dist(start, i, cap) {
                assert(!matches_key(b, j, hash, k));
            } else {
                assert(j != i);
                assert(b[i].is_some());
            }
        }
    }
    lemma_table_map(b, k0, k1);
}

/// Puts the key with its value into the table: into the slot that holds the
/// key, where there is one, else into the first free slot from the key's home.
/// Returns the value that the key had, and the slot that was written.
fn insert_internal<K: Hash + crate::order::Eq, V>(
    buckets: &mut Vec<Option<Bucket<K, V>>>,
    hash: usize,
    k: K,
    v: V,
) -> (r: (Option<V>, Ghost<int>))
    requires
        old(buckets)@.len() > 0,
        exists|t: int| 0 <= t < old(buckets)@.len() && (#[trigger] old(buckets)@[t]).is_none(),
    ensures
        0 <= r.1@ < old(buckets)@.len(),
        final(buckets)@ == old(buckets)@.update(r.1@, Some(Bucket { hash, key: k, value: v })),
        r.0.is_some() ==> matches_key(old(buckets)@, r.1@, hash, k) && r.0.unwrap() == old(
            buckets,
        )@[r.1@].unwrap().value,
        r.0.is_none() ==> old(buckets)@[r.1@].is_none() && search_ok(
            old(buckets)@,
            hash,
            k,
            SearchResult::FoundHole(r.1@ as usize),
        ),
{
    let ghost b = buckets@;
    match search(buckets, hash, &k) {
        SearchResult::TableFull => {
            proof {
                let t = choose|t: int| 0 <= t < b.len() && (#[trigger] b[t]).is_none();
                assert(b[t].is_some());
            }
            (None, Ghost(0))
        },
        SearchResult::FoundHole(idx) => {
            buckets[idx] = Some(Bucket { hash, key: k, value: v });
            (None, Ghost(idx as int))
        },
        SearchResult::FoundEntry(idx) => {
            let mut slot = Some(Bucket { hash, key: k, value: v });
            core::mem::swap(&mut buckets[idx], &mut slot);
            match slot {
                Some(previous) => (Some(previous.value), Ghost(idx as int)),
                None => (None, Ghost(idx as int)),
            }
        },
    }
}

/// The home of a key is a slot of the table.
proof fn lemma_home_range<K, V>(b: Slots<K, V>, i: int)
    requires
        b.len() > 0,
    ensures
        0 <= home(b, i) < b.len(),
{
    vstd::arithmetic::div_mod::lemma_mod_pos_bound(b[i].unwrap().hash as int, b.len() as int);
}

/// The slots from `cur` up to the free slot `hole` are occupied, and for
/// none of their keys the way from home to its slot passes `hole`.
spec fn pending_ok<K, V>(b: Slots<K, V>, cur: int, hole: int) -> bool {
    forall|t: int|
        0 <= t < b.len() && ring_dist(cur, t, b.len() as int) < ring_dist(cur, hole, b.len() as int) ==> (
        #[trigger] b[t]).is_some() && ring_dist(home(b, t), hole, b.len() as int) > ring_dist(
            home(b, t),
            t,
            b.len() as int,
        )
}

/// What holds while the keys behind a removed key are put in again: the
/// table is consistent but for the keys between `cur` and the free slot `hole`.
spec fn repair_ok<K: Hash, V>(b: Slots<K, V>, k0: u64, k1: u64, cur: int, hole: int) -> bool {
    &&& 0 <= cur < b.len()
    &&& 0 <= hole < b.len()
    &&& b[hole].is_none()
    &&& table_ok_except(b, k0, k1, cur, ring_dist(cur, hole, b.len() as int))
    &&& pending_ok(b, cur, hole)
}

/// Emptying the slot `at` of a consistent table leaves it consistent but
/// for the keys between `at` and the first free slot behind it.
proof fn lemma_repair_start<K: Hash, V>(b: Slots<K, V>, k0: u64, k1: u64, at: int, hole: int)
    requires
        table_ok(b, k0, k1),
        0 <= at < b.len(),
        0 <= hole < b.len(),
        b[at].is_some(),
        b[hole].is_none(),
        forall|t: int|
            0 <= t < b.len() && 1 <= ring_dist(at, t, b.len() as int) < ring_dist(
                at,
                hole,
                b.len() as int,
            ) ==> (#[trigger] b[t]).is_some(),
    ensures
        repair_ok(b.update(at, None), k0, k1, ring_at(at, 1, b.len() as int), hole),
        table_map(b.update(at, None)) == table_map(b).remove(b[at].unwrap().key),
        occupied(b.update(at, None)) == occupied(b) - 1,
{
    let after = b.update(at, None::<Bucket<K, V>>);
    let cap = b.len() as int;
    let cur = ring_at(at, 1, cap);
    let pend = ring_dist(cur, hole, cap);
    lemma_map_after_take(b, k0, k1, at);
    lemma_occupied_update(b, at, None);
    assert forall|j: int| 0 <= j < cap && ring_dist(cur, j, cap) >= pend implies #[trigger] chain_ok(
        after,
        j,
    ) by {
        if after[j].is_some() {
            assert(b[j].is_some());
            assert(ring_dist(0, j, cap) >= 0);
            assert(chain_ok(b, j));
            lemma_home_range(b, j);
            let h = home(b, j);
            assert(home(after, j) == h);
            assert forall|t: int| 0 <= t < cap && ring_dist(h, t, cap) < ring_dist(h, j, cap) implies (
            #[trigger] after[t]).is_some() by {
                assert(b[t].is_some());
                if t == at {
                    // every slot from `at` to `j` is occupied, so the first
                    // free slot lies behind `j`
                    assert(ring_dist(at, hole, cap) <= ring_dist(at, j, cap));
                    assert(ring_dist(h, hole, cap) < ring_dist(h, j, cap));
                    assert(b[hole].is_some());
                }
            }
        }
    }
    assert forall|t: int| 0 <= t < cap && ring_dist(cur, t, cap) < pend implies (#[trigger] after[t]).is_some()
        && ring_dist(home(after, t), hole, cap) > ring_dist(home(after, t), t, cap) by {
        assert(1 <= ring_dist(at, t, cap) < ring_dist(at, hole, cap));
        assert(b[t].is_some());
        assert(ring_dist(0, t, cap) >= 0);
        assert(chain_ok(b, t));
        lemma_home_range(b, t);
        let h = home(b, t);
        if ring_dist(h, hole, cap) < ring_dist(h, t, cap) {
            assert(b[hole].is_some());
        }
    }
}

/// One step of the repair: the key in slot `cur` was taken out and put into
/// the first free slot `i` from its home. The table is then consistent but
/// for the keys between the slot after `cur` and `hole`, and holds what it held.
proof fn lemma_repair_step<K: Hash, V>(b: Slots<K, V>, k0: u64, k1: u64, cur: int, hole: int, i: int)
    requires
        repair_ok(b, k0, k1, cur, hole),
        b[cur].is_some(),
        b.len() <= usize::MAX,
        0 <= i < b.len(),
        b.update(cur, None)[i].is_none(),
        search_ok(
            b.update(cur, None),
            b[cur].unwrap().hash,
            b[cur].unwrap().key,
            SearchResult::FoundHole(i as usize),
        ),
    ensures
        repair_ok(b.update(cur, None).update(i, b[cur]), k0, k1, ring_at(cur, 1, b.len() as int), hole),
        table_map(b.update(cur, None).update(i, b[cur])) == table_map(b),
        occupied(b.update(cur, None).update(i, b[cur])) == occupied(b),
{
    let cap = b.len() as int;
    let e = b[cur].unwrap();
    let b1 = b.update(cur, None::<Bucket<K, V>>);
    let b2 = b1.update(i, Some(e));
    let next = ring_at(cur, 1, cap);
    let pend = ring_dist(cur, hole, cap);
    assert(cur != hole);
    lemma_home_range(b, cur);
    let h = home(b, cur);
    assert(h == (e.hash as int) % cap);
    // the slot that was written lies between the key's home and `cur`
    assert(ring_dist(h, i, cap) <= ring_dist(h, cur, cap)) by {
        if ring_dist(h, cur, cap) < ring_dist(h, i, cap) {
            assert(b1[cur].is_some());
        }
    }
    assert(ring_dist(cur, cur, cap) < pend);
    assert(ring_dist(h, hole, cap) > ring_dist(h, cur, cap));
    assert(i != hole);
    lemma_map_after_take(b, k0, k1, cur);
    lemma_table_map(b, k0, k1);
    lemma_map_after_fill(b1, k0, k1, i, e);
    assert(table_map(b2) =~= table_map(b));
    lemma_occupied_update(b, cur, None);
    lemma_occupied_update(b1, i, Some(e));
    assert forall|j: int| 0 <= j < cap && ring_dist(next, j, cap) >= pend - 1 implies #[trigger] chain_ok(
        b2,
        j,
    ) by {
        if b2[j].is_some() {
            if j == i {
                assert(home(b2, i) == h);
                assert forall|t: int|
                    0 <= t < cap && ring_dist(h, t, cap) < ring_dist(h, i, cap) implies (
                #[trigger] b2[t]).is_some() by {
                    assert(b1[t].is_some());
                }
            } else {
                assert(b1[j].is_some());
                assert(j != cur);
                assert(b[j].is_some());
                assert(ring_dist(cur, j, cap) >= pend);
                assert(chain_ok(b, j));
                lemma_home_range(b, j);
                let hj = home(b, j);
                assert(home(b2, j) == hj);
                assert forall|t: int|
                    0 <= t < cap && ring_dist(hj, t, cap) < ring_dist(hj, j, cap) implies (
                #[trigger] b2[t]).is_some() by {
                    assert(b[t].is_some());
                    if t == cur {
                        assert(ring_dist(hj, hole, cap) < ring_dist(hj, j, cap));
                        assert(b[hole].is_some());
                    }
                }
            }
        }
    }
    assert forall|t: int| 0 <= t < cap && ring_dist(next, t, cap) < ring_dist(next, hole, cap) implies (
    #[trigger] b2[t]).is_some() && ring_dist(home(b2, t), hole, cap) > ring_dist(home(b2, t), t, cap) by {
        assert(ring_dist(cur, t, cap) < pend);
        assert(b[t].is_some());
        assert(t != cur);
        assert(b1[t].is_some());
        assert(t != i);
    }
}

/// Once no key is left between `cur` and the free slot, the table is consistent.
proof fn lemma_repair_end<K: Hash, V>(b: Slots<K, V>, k0: u64, k1: u64, cur: int, hole: int)
    requires
        repair_ok(b, k0, k1, cur, hole),
        b[cur].is_none(),
    ensures
        table_ok(b, k0, k1),
{
    let cap = b.len() as int;
    if cur != hole {
        assert(ring_dist(cur, cur, cap) < ring_dist(cur, hole, cap));
        assert(b[cur].is_some());
    }
    assert forall|j: int| 0 <= j < cap && ring_dist(0, j, cap) >= 0 implies #[trigger] chain_ok(b, j) by {
        assert(ring_dist(cur, j, cap) >= 0);
    }
}

/// Puts a slot that was taken out of a table back into it, where it is occupied.
fn insert_opt_bucket<K: Hash + crate::order::Eq, V>(
    buckets: &mut Vec<Option<Bucket<K, V>>>,
    bucket: Option<Bucket<K, V>>,
) -> (r: (bool, Ghost<int>))
    requires
        old(buckets)@.len() > 0,
        exists|t: int| 0 <= t < old(buckets)@.len() && (#[trigger] old(buckets)@[t]).is_none(),
    ensures
        bucket.is_none() ==> final(buckets)@ == old(buckets)@,
        bucket.is_some() ==> 0 <= r.1@ < old(buckets)@.len() && final(buckets)@ == old(buckets)@.update(
            r.1@,
            bucket,
        ),
        bucket.is_some() && !r.0 ==> old(buckets)@[r.1@].is_none() && search_ok(
            old(buckets)@,
            bucket.unwrap().hash,
            bucket.unwrap().key,
            SearchResult::FoundHole(r.1@ as usize),
        ),
        bucket.is_some() && r.0 ==> matches_key(
            old(buckets)@,
            r.1@,
            bucket.unwrap().hash,
            bucket.unwrap().key,
        ),
{
    match bucket {
        Some(Bucket { hash, key, value }) => {
            let (previous, slot) = insert_internal(buckets, hash, key, value);
            (previous.is_some(), slot)
        },
        None => (false, Ghost(0)),
    }
}

/// Takes the key `k` out of the table and puts the keys behind it, up to
/// the next free slot, in again, so that every key is still met on the way
/// from its home. Returns the value that the key had.
fn pop_internal<K: Hash + crate::order::Eq, V>(
    buckets: &mut Vec<Option<Bucket<K, V>>>,
    hash: usize,
    k: &K,
    Ghost(k0): Ghost<u64>,
    Ghost(k1): Ghost<u64>,
) -> (r: Option<V>)
    requires
        table_ok(old(buckets)@, k0, k1),
        hash == stored_hash(*k, k0, k1),
        occupied(old(buckets)@) < old(buckets)@.len(),
    ensures
        table_ok(final(buckets)@, k0, k1),
        final(buckets)@.len() == old(buckets)@.len(),
        table_map(final(buckets)@) == table_map(old(buckets)@).remove(*k),
        r == if table_map(old(buckets)@).contains_key(*k) {
            Some(table_map(old(buckets)@)[*k])
        } else {
            None
        },
        occupied(final(buckets)@) == occupied(old(buckets)@) - if r.is_some() { 1int } else { 0int },
{
    let ghost b0 = buckets@;
    let len_buckets = buckets.len();
    proof {
        lemma_occupied_bound(b0);
        lemma_table_map(b0, k0, k1);
    }
    let mut idx = match search(buckets, hash, k) {
        SearchResult::TableFull => {
            proof {
                let t = choose|t: int| 0 <= t < b0.len() && !(#[trigger] b0[t]).is_some();
                assert(b0[t].is_some());
            }
            return None;
        },
        SearchResult::FoundHole(hole) => {
            proof {
                lemma_hole_means_absent(b0, k0, k1, hash, *k, hole as int);
                assert(table_map(b0).remove(*k) =~= table_map(b0));
            }
            return None;
        },
        SearchResult::FoundEntry(idx) => idx,
    };
    let ghost at = idx as int;
    let ghost hole: int;
    proof {
        assert(holds_key(b0, at, *k));
        let t = choose|t: int| 0 <= t < b0.len() && !(#[trigger] b0[t]).is_some();
        assert(b0[t].is_none());
        assert forall|t: int| 0 <= t < b0.len() && 1 <= ring_dist(at, t, b0.len() as int) < 1 implies (
        #[trigger] b0[t]).is_some() by {}
        hole = lemma_first_hole(b0, at, 1);
        lemma_repair_start(b0, k0, k1, at, hole);
    }
    let bucket = buckets[idx].take();
    let value = match bucket {
        Some(bucket) => Some(bucket.value),
        None => None,
    };
    idx = next_bucket(idx, len_buckets);
    while buckets[idx].is_some()
        invariant
            len_buckets == buckets@.len(),
            len_buckets == b0.len(),
            idx < len_buckets,
            repair_ok(buckets@, k0, k1, idx as int, hole),
            table_map(buckets@) == table_map(b0).remove(*k),
            occupied(buckets@) == occupied(b0) - 1,
        decreases ring_dist(idx as int, hole, len_buckets as int),
    {
        let ghost b = buckets@;
        let bucket = buckets[idx].take();
        let ghost b1 = buckets@;
        assert(b1 =~= b.update(idx as int, None));
        assert(b1[idx as int].is_none());
        proof {
            lemma_map_after_take(b, k0, k1, idx as int);
        }
        let (found, Ghost(i)) = insert_opt_bucket(buckets, bucket);
        proof {
            if found {
                assert(holds_key(b1, i, b[idx as int].unwrap().key));
            }
            lemma_repair_step(b, k0, k1, idx as int, hole, i);
        }
        idx = next_bucket(idx, len_buckets);
    }
    proof {
        lemma_repair_end(buckets@, k0, k1, idx as int, hole);
    }
    value
}

/// The slots of `b` from position `n` on, with free slots before them.
spec fn later_slots<K, V>(b: Slots<K, V>, n: int) -> Slots<K, V> {
    Seq::new(b.len(), |i: int| if i < n { None } else { b[i] })
}

/// What holds of a part of a table's slots holds of its keys and hashes too.
proof fn lemma_later_slots_ok<K: Hash, V>(b: Slots<K, V>, k0: u64, k1: u64, n: int)
    requires
        entries_ok(b, k0, k1),
        0 <= n <= b.len(),
    ensures
        entries_ok(later_slots(b, n), k0, k1),
{
    let part = later_slots(b, n);
    assert forall|i: int| 0 <= i < part.len() && (#[trigger] part[i]).is_some() implies part[i].unwrap().hash
        == stored_hash(part[i].unwrap().key, k0, k1) by {
        assert(b[i].is_some());
    }
    assert forall|i: int, j: int|
        0 <= i < part.len() && 0 <= j < part.len() && i != j && (#[trigger] part[i]).is_some() && (
        #[trigger] part[j]).is_some() implies part[i].unwrap().key != part[j].unwrap().key by {
        assert(b[i].is_some() && b[j].is_some());
    }
}

/// Returns `n` free slots.
fn empty_slots<K, V>(n: usize) -> (xs: Vec<Option<Bucket<K, V>>>)
    ensures
        xs@.len() == n,
        forall|i: int| 0 <= i < n ==> (#[trigger] xs@[i]).is_none(),
{
    let mut xs: Vec<Option<Bucket<K, V>>> = Vec::with_capacity(n);
    let mut i: usize = 0;
    while i < n
        invariant
            i <= n,
            xs@.len() == i,
            forall|j: int| 0 <= j < i ==> (#[trigger] xs@[j]).is_none(),
        decreases n - i,
    {
        xs.push(None);
        i = i + 1;
    }
    xs
}

/// Moves every key of `old_buckets` into the empty table `fresh`.
fn rehash<K: Hash + crate::order::Eq, V>(
    old_buckets: Vec<Option<Bucket<K, V>>>,
    fresh: Vec<Option<Bucket<K, V>>>,
    Ghost(k0): Ghost<u64>,
    Ghost(k1): Ghost<u64>,
) -> (r: Vec<Option<Bucket<K, V>>>)
    requires
        entries_ok(old_buckets@, k0, k1),
        fresh@.len() > occupied(old_buckets@),
        forall|i: int| 0 <= i < fresh@.len() ==> (#[trigger] fresh@[i]).is_none(),
    ensures
        table_ok(r@, k0, k1),
        r@.len() == fresh@.len(),
        table_map(r@) == table_map(old_buckets@),
        occupied(r@) == occupied(old_buckets@),
{
    let ghost b0 = old_buckets@;
    let mut old_buckets = old_buckets;
    let mut buckets = fresh;
    let new_capacity = buckets.len();
    proof {
        lemma_empty_table(buckets@, k0, k1);
        assert(table_map(later_slots(b0, b0.len() as int)) =~= Map::<K, V>::empty()) by {
            lemma_later_slots_ok(b0, k0, k1, b0.len() as int);
            lemma_table_map(later_slots(b0, b0.len() as int), k0, k1);
        }
        assert(b0.take(b0.len() as int) =~= b0);
    }
    while !old_buckets.is_empty()
        invariant
            old_buckets@ == b0.take(old_buckets@.len() as int),
            old_buckets@.len() <= b0.len(),
            entries_ok(b0, k0, k1),
            buckets@.len() == new_capacity,
            new_capacity == fresh@.len(),
            buckets@.len() > occupied(b0),
            table_ok(buckets@, k0, k1),
            table_map(buckets@) == table_map(later_slots(b0, old_buckets@.len() as int)),
            occupied(buckets@) + occupied(old_buckets@) == occupied(b0),
        decreases old_buckets@.len(),
    {
        let ghost n = old_buckets@.len() as int;
        let ghost b = buckets@;
        let slot = old_buckets.pop().unwrap();
        proof {
            lemma_occupied_bound(b);
            assert(b0.take(n).drop_last() =~= b0.take(n - 1));
            assert(slot == b0[n - 1]);
            let masked = later_slots(b0, n);
            let next = later_slots(b0, n - 1);
            lemma_later_slots_ok(b0, k0, k1, n);
            lemma_table_map(masked, k0, k1);
            lemma_table_map(b, k0, k1);
            assert(next =~= masked.update(n - 1, slot));
            if slot.is_some() {
                let e = slot.unwrap();
                assert(b0[n - 1].is_some());
                assert forall|j: int| !holds_key(masked, j, e.key) by {
                    if holds_key(masked, j, e.key) {
                        assert(b0[j].is_some());
                    }
                }
                assert(!table_map(b).contains_key(e.key));
                lemma_map_after_fill(masked, k0, k1, n - 1, e);
                let t = choose|t: int| 0 <= t < b.len() && !(#[trigger] b[t]).is_some();
                assert(b[t].is_none());
            } else {
                assert(next =~= masked);
            }
        }
        if slot.is_some() {
            let (found, Ghost(i)) = insert_opt_bucket(&mut buckets, slot);
            proof {
                let e = slot.unwrap();
                if found {
                    assert(holds_key(b, i, e.key));
                }
                assert forall|j: int| !holds_key(b, j, e.key) by {
                    if holds_key(b, j, e.key) {
                        assert(table_map(b).contains_key(e.key));
                    }
                }
                lemma_fill_keeps_table(b, k0, k1, 0, 0, i, e);
                lemma_occupied_update(b, i, Some(e));
            }
        }
    }
    proof {
        assert(later_slots(b0, 0) =~= b0);
        assert(old_buckets@ =~= Seq::empty());
    }
    buckets
}

/// A table has as many keys as occupied slots.
proof fn lemma_map_size<K: Hash, V>(b: Slots<K, V>, k0: u64, k1: u64, n: int)
    requires
        entries_ok(b, k0, k1),
        0 <= n <= b.len(),
    ensures
        table_map(later_slots(b, n)).dom().finite(),
        table_map(later_slots(b, n)).dom().len() == occupied(later_slots(b, n)),
    decreases b.len() - n,
{
    let part = later_slots(b, n);
    lemma_later_slots_ok(b, k0, k1, n);
    if n == b.len() {
        lemma_empty_table(part, k0, k1);
        assert(table_map(part).dom() =~= Set::<K>::empty());
    } else {
        let rest = later_slots(b, n + 1);
        lemma_map_size(b, k0, k1, n + 1);
        lemma_later_slots_ok(b, k0, k1, n + 1);
        assert(part =~= rest.update(n, b[n]));
        lemma_occupied_update(rest, n, b[n]);
        if b[n].is_some() {
            let e = b[n].unwrap();
            assert forall|j: int| !holds_key(rest, j, e.key) by {
                if holds_key(rest, j, e.key) {
                    assert(b[j].is_some());
                }
            }
            lemma_map_after_fill(rest, k0, k1, n, e);
            lemma_table_map(rest, k0, k1);
            assert(!table_map(rest).dom().contains(e.key));
            assert(table_map(part).dom() =~= table_map(rest).dom().insert(e.key));
        } else {
            assert(part =~= rest);
        }
    }
}

/// Returns the value in the slot `idx`, which holds a key, open to change.
/// The key and its hash stay as they are.
fn mut_value_for_bucket<'a, K, V>(buckets: &'a mut Vec<Option<Bucket<K, V>>>, idx: usize) -> (r: &'a mut V)
    requires
        idx < old(buckets)@.len(),
        old(buckets)@[idx as int].is_some(),
    ensures
        *r == old(buckets)@[idx as int].unwrap().value,
        final(buckets)@ == old(buckets)@.update(
            idx as int,
            Some(
                Bucket {
                    hash: old(buckets)@[idx as int].unwrap().hash,
                    key: old(buckets)@[idx as int].unwrap().key,
                    value: *final(r),
                },
            ),
        ),
    no_unwind
{
    match &mut buckets[idx] {
        Some(bkt) => &mut bkt.value,
        None => vstd::pervasive::unreached(),
    }
}

/// The number of keys at which a table of `capacity` slots is enlarged:
/// three quarters of its slots.
pub open spec fn resize_threshold(capacity: int) -> int {
    (capacity * 3) / 4
}

/// Returns the number of keys at which a table of `capacity` slots is enlarged.
pub fn resize_at(capacity: usize) -> (r: usize)
    ensures
        r == resize_threshold(capacity as int),
{
    capacity / 4 * 3 + (capacity % 4) * 3 / 4
}

/// `n` is a power of two.
pub open spec fn is_power_of_two(n: int) -> bool
    decreases n,
{
    if n <= 1 {
        n == 1
    } else {
        n % 2 == 0 && is_power_of_two(n / 2)
    }
}

/// Returns the smallest power of two that is not below `n`.
pub fn next_power_of_two(n: usize) -> (r: usize)
    requires
        1 <= n <= usize::MAX / 2,
    ensures
        is_power_of_two(r as int),
        n <= r,
        r < 2 * n,
{
    let mut p: usize = 1;
    while p < n
        invariant
            1 <= p,
            p < 2 * n,
            n <= usize::MAX / 2,
            is_power_of_two(p as int),
        decreases 2 * n - p,
    {
        assert(is_power_of_two(2 * p as int)) by {
            assert((2 * p) / 2 == p);
        }
        p = p * 2;
    }
    p
}

/// The number of slots of a table that is made without asking for more.
pub const INITIAL_CAPACITY: usize = 32;

/// A hash map with open addressing and linear probing, keyed with a
/// 128-bit hash key. Its view is the map from its keys to their values.
pub struct HashMap<K: Hash + crate::order::Eq, V> {
    k0: u64,
    k1: u64,
    resize_at: usize,
    size: usize,
    buckets: Vec<Option<Bucket<K, V>>>,
}

impl<K: Hash + crate::order::Eq, V> HashMap<K, V> {
    #[verifier::type_invariant]
    spec fn inv(&self) -> bool {
        &&& self.buckets@.len() > 0 ==> table_ok(self.buckets@, self.k0, self.k1)
        &&& self.size == occupied(self.buckets@)
        &&& self.resize_at == resize_threshold(self.buckets@.len() as int)
        &&& self.size <= self.resize_at
    }

    /// The keys with their values.
    pub closed spec fn view(&self) -> Map<K, V> {
        table_map(self.buckets@)
    }

    /// The hash key of the map.
    pub closed spec fn keys(&self) -> (u64, u64) {
        (self.k0, self.k1)
    }

    /// The number of slots of the table.
    pub closed spec fn slots(&self) -> nat {
        self.buckets@.len()
    }

    /// Searches the table for the key `k`.
    fn bucket_for_key(&self, k: &K) -> (r: SearchResult)
        ensures
            match r {
                SearchResult::FoundEntry(i) => self@.contains_key(*k) && holds_key(
                    self.buckets@,
                    i as int,
                    *k,
                ),
                SearchResult::FoundHole(_) => !self@.contains_key(*k),
                SearchResult::TableFull => !self@.contains_key(*k),
            },
    {
        let hash = #[verifier::truncate] (k.hash(self.k0, self.k1) as usize);
        self.bucket_for_key_with_hash(hash, k)
    }

    /// Searches the table for the key `k`, whose hash is `hash`.
    fn bucket_for_key_with_hash(&self, hash: usize, k: &K) -> (r: SearchResult)
        requires
            hash == stored_hash(*k, self.keys().0, self.keys().1),
        ensures
            match r {
                SearchResult::FoundEntry(i) => self@.contains_key(*k) && holds_key(
                    self.buckets@,
                    i as int,
                    *k,
                ),
                SearchResult::FoundHole(_) => !self@.contains_key(*k),
                SearchResult::TableFull => !self@.contains_key(*k),
            },
    {
        proof {
            use_type_invariant(self);
        }
        if self.buckets.len() == 0 {
            assert(!table_map(self.buckets@).contains_key(*k));
            return SearchResult::TableFull;
        }
        proof {
            lemma_table_map(self.buckets@, self.k0, self.k1);
            lemma_occupied_bound(self.buckets@);
        }
        let r = search(&self.buckets, hash, k);
        proof {
            let b = self.buckets@;
            match r {
                SearchResult::FoundEntry(i) => {
                    assert(holds_key(b, i as int, *k));
                },
                SearchResult::FoundHole(i) => {
                    lemma_hole_means_absent(b, self.k0, self.k1, hash, *k, i as int);
                },
                SearchResult::TableFull => {
                    let t = choose|t: int| 0 <= t < b.len() && !(#[trigger] b[t]).is_some();
                    assert(b[t].is_some());
                },
            }
        }
        r
    }

    /// The value in the slot `idx`, which holds a key.
    fn value_for_bucket(&self, idx: usize) -> (r: &V)
        requires
            idx < self.slots(),
            self.buckets@[idx as int].is_some(),
        ensures
            *r == self.buckets@[idx as int].unwrap().value,
    {
        match &self.buckets[idx] {
            Some(bkt) => &bkt.value,
            None => vstd::pervasive::unreached(),
        }
    }

    /// Returns the value of the key `k`; `None` where the map lacks the key.
    pub fn find(&self, k: &K) -> (r: Option<&V>)
        ensures
            r == if self@.contains_key(*k) {
                Some(&self@[*k])
            } else {
                None
            },
    {
        proof {
            use_type_invariant(self);
            if self.buckets@.len() > 0 {
                lemma_table_map(self.buckets@, self.k0, self.k1);
            }
        }
        match self.bucket_for_key(k) {
            SearchResult::FoundEntry(idx) => Some(self.value_for_bucket(idx)),
            SearchResult::TableFull => None,
            SearchResult::FoundHole(_) => None,
        }
    }

    /// Returns the value of the key `k`, open to change; `None` where the
    /// map lacks the key.
    pub fn find_mut(&mut self, k: &K) -> (r: Option<&mut V>)
        ensures
            match r {
                Some(v) => old(self)@.contains_key(*k) && *v == old(self)@[*k] && final(self)@ == old(self)@.insert(*k, *final(v)),
                None => !old(self)@.contains_key(*k) && final(self)@ == old(self)@,
            },
            final(self).keys() == old(self).keys(),
    {
        proof {
            use_type_invariant(&*self);
            if self.buckets@.len() > 0 {
                lemma_table_map(self.buckets@, self.k0, self.k1);
            }
        }
        let idx = match self.bucket_for_key(k) {
            SearchResult::FoundEntry(idx) => idx,
            SearchResult::TableFull => {
                return None;
            },
            SearchResult::FoundHole(_) => {
                return None;
            },
        };
        proof {
            assert(self@ =~= self@.insert(*k, self@[*k]));
        }
        Some(self.mut_value_at(idx, Ghost(*k), Ghost(self@)))
    }

    /// Changes the value of the key `k` with `found`, where the map has the
    /// key, and else puts the key into the map with the value that
    /// `not_found` makes. Returns the value that the key has then, open to
    /// change.
    pub fn mangle<'a, A, N: FnOnce(&K, A) -> V, F: FnOnce(&K, &mut V, A)>(
        &'a mut self,
        k: K,
        a: A,
        not_found: N,
        found: F,
    ) -> (r: &'a mut V)
        requires
            !old(self)@.contains_key(k) ==> call_requires(not_found, (&k, a)),
            old(self)@.contains_key(k) ==> forall|x: &mut V|
                mut_ref_current(x) == old(self)@[k] ==> call_requires(found, (&k, x, a)),
        ensures
            final(self)@ == old(self)@.insert(k, *final(r)),
            !old(self)@.contains_key(k) ==> call_ensures(not_found, (&k, a), *r),
            old(self)@.contains_key(k) ==> exists|x: &mut V|
                mut_ref_current(x) == old(self)@[k] && mut_ref_future(x) == *r && #[trigger] call_ensures(
                    found,
                    (&k, x, a),
                    (),
                ),
            old(self)@.dom().finite(),
            final(self).keys() == old(self).keys(),
    {
        let (k0, k1, mut threshold, mut size, mut buckets) = self.take_parts();
        if size >= threshold {
            buckets = Self::expand(buckets, Ghost(k0), Ghost(k1));
            threshold = resize_at(buckets.len());
        }
        let hash = #[verifier::truncate] (k.hash(k0, k1) as usize);
        let ghost b = buckets@;
        let ghost key = k;
        let slots = buckets.len();
        proof {
            assert(b.len() == slots);
            lemma_occupied_bound(b);
            lemma_table_map(b, k0, k1);
        }
        let idx = match search(&buckets, hash, &k) {
            SearchResult::TableFull => {
                proof {
                    let t = choose|t: int| 0 <= t < b.len() && !(#[trigger] b[t]).is_some();
                    assert(b[t].is_some());
                }
                vstd::pervasive::unreached()
            },
            SearchResult::FoundEntry(idx) => {
                proof {
                    assert(holds_key(b, idx as int, k));
                }
                match &mut buckets[idx] {
                    Some(bucket) => {
                        found(&k, &mut bucket.value, a);
                    },
                    None => {},
                }
                proof {
                    let value = buckets@[idx as int].unwrap().value;
                    lemma_replace_keeps_table(b, k0, k1, idx as int, Bucket { hash, key: k, value });
                    assert(buckets@ =~= b.update(idx as int, Some(Bucket { hash, key: k, value })));
                }
                idx
            },
            SearchResult::FoundHole(idx) => {
                proof {
                    lemma_hole_means_absent(b, k0, k1, hash, k, idx as int);
                }
                let value = not_found(&k, a);
                proof {
                    let bucket = Bucket { hash, key: k, value };
                    lemma_fill_keeps_table(b, k0, k1, 0, 0, idx as int, bucket);
                    lemma_occupied_update(b, idx as int, Some(bucket));
                }
                buckets[idx] = Some(Bucket { hash, key: k, value });
                size = size + 1;
                idx
            },
        };
        *self = HashMap { k0, k1, resize_at: threshold, size, buckets };
        proof {
            lemma_table_map(self.buckets@, k0, k1);
            assert(holds_key(self.buckets@, idx as int, key));
            assert(self@ =~= old(self)@.insert(key, self@[key]));
        }
        self.mut_value_at(idx, Ghost(key), Ghost(old(self)@))
    }

    /// Returns the value in the slot `idx`, which holds the key `k`, open to change.
    /// The map is then `base` with that value for the key.
    fn mut_value_at<'a>(
        &'a mut self,
        idx: usize,
        Ghost(k): Ghost<K>,
        Ghost(base): Ghost<Map<K, V>>,
    ) -> (r: &'a mut V)
        requires
            holds_key(old(self).buckets@, idx as int, k),
            old(self)@ == base.insert(k, old(self)@[k]),
        ensures
            *r == old(self)@[k],
            final(self)@ == base.insert(k, *final(r)),
            final(self).keys() == old(self).keys(),
    {
        proof {
            use_type_invariant(&*self);
            let b = self.buckets@;
            let held = b[idx as int].unwrap();
            lemma_table_map(b, self.k0, self.k1);
            assert forall|v: V| #[trigger]
                table_ok(
                    b.update(idx as int, Some(Bucket { hash: held.hash, key: held.key, value: v })),
                    self.k0,
                    self.k1,
                ) && occupied(
                    b.update(idx as int, Some(Bucket { hash: held.hash, key: held.key, value: v })),
                ) == occupied(b) && table_map(
                    b.update(idx as int, Some(Bucket { hash: held.hash, key: held.key, value: v })),
                ) == base.insert(k, v) by {
                lemma_replace_keeps_table(
                    b,
                    self.k0,
                    self.k1,
                    idx as int,
                    Bucket { hash: held.hash, key: held.key, value: v },
                );
                assert(table_map(b).insert(k, v) =~= base.insert(k, v));
            }
        }
        mut_value_for_bucket(&mut self.buckets, idx)
    }

    /// Returns the value of the key `k`, open to change, after putting the
    /// key with the value `v` into the map where the map lacked it.
    pub fn find_or_insert<'a>(&'a mut self, k: K, v: V) -> (r: &'a mut V)
        ensures
            final(self)@ == old(self)@.insert(k, *final(r)),
            *r == if old(self)@.contains_key(k) {
                old(self)@[k]
            } else {
                v
            },
            final(self).keys() == old(self).keys(),
    {
        let take_new = |_k: &K, a: V| -> (r: V)
            ensures
                r == a,
            { a };
        let keep_old = |_k: &K, held: &mut V, _a: V|
            ensures
                *final(held) == *old(held),
            {};
        self.mangle(k, v, take_new, keep_old)
    }

    /// Returns the value of the key `k`, open to change, after putting the
    /// key with the value that `f` makes into the map where the map lacked it.
    pub fn find_or_insert_with<'a, F: FnOnce(&K) -> V>(&'a mut self, k: K, f: F) -> (r: &'a mut V)
        requires
            !old(self)@.contains_key(k) ==> call_requires(f, (&k,)),
        ensures
            final(self)@ == old(self)@.insert(k, *final(r)),
            old(self)@.contains_key(k) ==> *r == old(self)@[k],
            !old(self)@.contains_key(k) ==> call_ensures(f, (&k,), *r),
            final(self).keys() == old(self).keys(),
    {
        let ghost key = k;
        let make_new = |k: &K, _a: ()| -> (r: V)
            requires
                call_requires(f, (k,)),
            ensures
                call_ensures(f, (k,), r),
            { f(k) };
        let keep_old = |_k: &K, held: &mut V, _a: ()|
            ensures
                *final(held) == *old(held),
            {};
        self.mangle(k, (), make_new, keep_old)
    }

    /// Puts the key `k` with the value `v` into the map where the map lacks
    /// the key, and else changes the value of the key with `f`. Returns the
    /// value that the key has then, open to change.
    pub fn insert_or_update_with<'a, F: FnOnce(&K, &mut V)>(&'a mut self, k: K, v: V, f: F) -> (r:
        &'a mut V)
        requires
            old(self)@.contains_key(k) ==> forall|x: &mut V|
                mut_ref_current(x) == old(self)@[k] ==> call_requires(f, (&k, x)),
        ensures
            final(self)@ == old(self)@.insert(k, *final(r)),
            !old(self)@.contains_key(k) ==> *r == v,
            old(self)@.contains_key(k) ==> exists|x: &mut V|
                mut_ref_current(x) == old(self)@[k] && mut_ref_future(x) == *r && #[trigger] call_ensures(
                    f,
                    (&k, x),
                    (),
                ),
            final(self).keys() == old(self).keys(),
    {
        let take_new = |_k: &K, a: V| -> (r: V)
            ensures
                r == a,
            { a };
        let update = |k: &K, held: &mut V, _a: V|
            requires
                forall|x: &mut V| mut_ref_current(x) == *old(held) ==> call_requires(f, (k, x)),
            ensures
                exists|x: &mut V|
                    mut_ref_current(x) == *old(held) && mut_ref_future(x) == *final(held)
                        && #[trigger] call_ensures(f, (k, x), ()),
            { f(k, held) };
        self.mangle(k, v, take_new, update)
    }

    /// Puts the key `k` with the value `v` into the map. Returns the value
    /// that the key had, `None` where the map lacked the key.
    pub fn swap(&mut self, k: K, v: V) -> (r: Option<V>)
        ensures
            final(self)@ == old(self)@.insert(k, v),
            r == if old(self)@.contains_key(k) {
                Some(old(self)@[k])
            } else {
                None
            },
            old(self)@.dom().finite(),
            final(self).size() == old(self).size() + if r.is_none() {
                1nat
            } else {
                0nat
            },
            final(self).keys() == old(self).keys(),
    {
        let (k0, k1, mut threshold, mut size, mut buckets) = self.take_parts();
        if size >= threshold {
            buckets = Self::expand(buckets, Ghost(k0), Ghost(k1));
            threshold = resize_at(buckets.len());
        }
        let hash = #[verifier::truncate] (k.hash(k0, k1) as usize);
        let ghost b = buckets@;
        let slots = buckets.len();
        proof {
            assert(b.len() == slots);
            lemma_occupied_bound(b);
            lemma_table_map(b, k0, k1);
            let t = choose|t: int| 0 <= t < b.len() && !(#[trigger] b[t]).is_some();
            assert(b[t].is_none());
        }
        let (previous, Ghost(i)) = insert_internal(&mut buckets, hash, k, v);
        proof {
            let bucket = Bucket { hash, key: k, value: v };
            if previous.is_some() {
                assert(holds_key(b, i, k));
                lemma_replace_keeps_table(b, k0, k1, i, bucket);
            } else {
                lemma_hole_means_absent(b, k0, k1, hash, k, i);
                lemma_fill_keeps_table(b, k0, k1, 0, 0, i, bucket);
                lemma_occupied_update(b, i, Some(bucket));
            }
        }
        if previous.is_none() {
            size = size + 1;
        }
        *self = HashMap { k0, k1, resize_at: threshold, size, buckets };
        previous
    }

    /// Takes the key `k` out of the map. Returns the value that the key
    /// had, `None` where the map lacked the key.
    pub fn pop(&mut self, k: &K) -> (r: Option<V>)
        ensures
            final(self)@ == old(self)@.remove(*k),
            r == if old(self)@.contains_key(*k) {
                Some(old(self)@[*k])
            } else {
                None
            },
            old(self)@.dom().finite(),
            final(self).size() + (if r.is_some() {
                1nat
            } else {
                0nat
            }) == old(self).size(),
            final(self).keys() == old(self).keys(),
    {
        let (k0, k1, threshold, mut size, mut buckets) = self.take_parts();
        let hash = #[verifier::truncate] (k.hash(k0, k1) as usize);
        let value = pop_internal(&mut buckets, hash, k, Ghost(k0), Ghost(k1));
        if value.is_some() {
            size = size - 1;
        }
        *self = HashMap { k0, k1, resize_at: threshold, size, buckets };
        value
    }

    /// Returns an empty map with the hash key `(k0, k1)` and room for
    /// `capacity` slots, at least `INITIAL_CAPACITY`.
    pub fn with_capacity_and_keys(k0: u64, k1: u64, capacity: usize) -> (r: HashMap<K, V>)
        ensures
            r@ == Map::<K, V>::empty(),
            r.keys() == (k0, k1),
            r.slots() == if capacity < INITIAL_CAPACITY {
                INITIAL_CAPACITY
            } else {
                capacity
            },
    {
        let capacity = crate::order::max(INITIAL_CAPACITY, capacity);
        let xs = empty_slots(capacity);
        proof {
            lemma_empty_table::<K, V>(xs@, k0, k1);
        }
        HashMap { k0, k1, resize_at: resize_at(capacity), size: 0, buckets: xs }
    }

    /// Makes sure that the table has at least `n` slots. The keys and
    /// their values stay as they are.
    pub fn reserve_at_least(&mut self, n: usize)
        requires
            n <= usize::MAX / 8,
        ensures
            final(self)@ == old(self)@,
            final(self).keys() == old(self).keys(),
            final(self).slots() >= n,
            final(self).slots() >= old(self).slots(),
    {
        let (k0, k1, threshold, size, buckets) = self.take_parts();
        if n > buckets.len() {
            let wanted = n * 4 / 3 + 1;
            let new_capacity = next_power_of_two(wanted);
            let buckets = Self::resize(buckets, new_capacity, Ghost(k0), Ghost(k1));
            *self = HashMap { k0, k1, resize_at: resize_at(new_capacity), size, buckets };
        } else {
            *self = HashMap { k0, k1, resize_at: threshold, size, buckets };
        }
    }

    /// Moves the keys into a table of twice as many slots.
    fn expand(buckets: Vec<Option<Bucket<K, V>>>, Ghost(k0): Ghost<u64>, Ghost(k1): Ghost<u64>) -> (r:
        Vec<Option<Bucket<K, V>>>)
        requires
            table_ok(buckets@, k0, k1),
        ensures
            table_ok(r@, k0, k1),
            r@.len() == 2 * buckets@.len(),
            table_map(r@) == table_map(buckets@),
            occupied(r@) == occupied(buckets@),
    {
        let cap = buckets.len();
        let mut fresh = empty_slots(cap);
        let mut i: usize = 0;
        while i < cap
            invariant
                i <= cap,
                fresh@.len() == cap + i,
                forall|j: int| 0 <= j < cap + i ==> (#[trigger] fresh@[j]).is_none(),
            decreases cap - i,
        {
            fresh.push(None);
            i = i + 1;
        }
        proof {
            lemma_occupied_bound(buckets@);
        }
        rehash(buckets, fresh, Ghost(k0), Ghost(k1))
    }

    /// Moves the keys into a table of `new_capacity` slots.
    fn resize(
        buckets: Vec<Option<Bucket<K, V>>>,
        new_capacity: usize,
        Ghost(k0): Ghost<u64>,
        Ghost(k1): Ghost<u64>,
    ) -> (r: Vec<Option<Bucket<K, V>>>)
        requires
            table_ok(buckets@, k0, k1),
            new_capacity > occupied(buckets@),
        ensures
            table_ok(r@, k0, k1),
            r@.len() == new_capacity,
            table_map(r@) == table_map(buckets@),
            occupied(r@) == occupied(buckets@),
    {
        let fresh = empty_slots(new_capacity);
        rehash(buckets, fresh, Ghost(k0), Ghost(k1))
    }

    /// Moves the parts of the map out, leaving an empty map without a table,
    /// so that they can be worked on before the map is put together again.
    /// A map that was left without a table gets a new one.
    fn take_parts(&mut self) -> (parts: (u64, u64, usize, usize, Vec<Option<Bucket<K, V>>>))
        ensures
            parts.0 == old(self).k0,
            parts.1 == old(self).k1,
            table_map(parts.4@) == old(self)@,
            old(self)@.dom().finite(),
            parts.4@.len() >= old(self).slots(),
            table_ok(parts.4@, parts.0, parts.1),
            parts.3 == occupied(parts.4@),
            parts.2 == resize_threshold(parts.4@.len() as int),
            parts.3 <= parts.2,
    {
        let mut taken = HashMap {
            k0: self.k0,
            k1: self.k1,
            resize_at: 0,
            size: 0,
            buckets: Vec::new(),
        };
        core::mem::swap(self, &mut taken);
        proof {
            use_type_invariant(&taken);
            if taken.buckets@.len() > 0 {
                lemma_map_size(taken.buckets@, taken.k0, taken.k1, 0);
                assert(later_slots(taken.buckets@, 0) =~= taken.buckets@);
            } else {
                assert(table_map(taken.buckets@).dom() =~= Set::<K>::empty());
            }
        }
        if taken.buckets.len() == 0 {
            let xs = empty_slots(INITIAL_CAPACITY);
            proof {
                lemma_empty_table::<K, V>(xs@, taken.k0, taken.k1);
                assert(table_map(taken.buckets@) =~= Map::<K, V>::empty());
            }
            (taken.k0, taken.k1, resize_at(INITIAL_CAPACITY), 0, xs)
        } else {
            (taken.k0, taken.k1, taken.resize_at, taken.size, taken.buckets)
        }
    }
}

impl<K: Hash + crate::order::Eq, V> Container for HashMap<K, V> {
    open spec fn size(&self) -> nat {
        self@.dom().len()
    }

    /// Returns the number of keys. The map has finitely many.
    fn len(&self) -> (n: usize)
        ensures
            self@.dom().finite(),
    {
        proof {
            use_type_invariant(self);
            if self.buckets@.len() > 0 {
                lemma_map_size(self.buckets@, self.k0, self.k1, 0);
                assert(later_slots(self.buckets@, 0) =~= self.buckets@);
            } else {
                assert(table_map(self.buckets@).dom() =~= Set::<K>::empty());
            }
        }
        self.size
    }
}

} // verus!
