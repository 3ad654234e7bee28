//! SHA-256, as FIPS 180-4 defines it.
//!
//! This is the code that decides whether we are willing to execute an external
//! binary, so it is kept here, where it can be read in one sitting.

use vstd::prelude::*;

use crate::numbers::{digit, nibble};

verus! {

/// The round constants.
pub open spec fn constants() -> Seq<u32> {
    seq![
        0x428a2f98u32, 0x71374491u32, 0xb5c0fbcfu32, 0xe9b5dba5u32,
        0x3956c25bu32, 0x59f111f1u32, 0x923f82a4u32, 0xab1c5ed5u32,
        0xd807aa98u32, 0x12835b01u32, 0x243185beu32, 0x550c7dc3u32,
        0x72be5d74u32, 0x80deb1feu32, 0x9bdc06a7u32, 0xc19bf174u32,
        0xe49b69c1u32, 0xefbe4786u32, 0x0fc19dc6u32, 0x240ca1ccu32,
        0x2de92c6fu32, 0x4a7484aau32, 0x5cb0a9dcu32, 0x76f988dau32,
        0x983e5152u32, 0xa831c66du32, 0xb00327c8u32, 0xbf597fc7u32,
        0xc6e00bf3u32, 0xd5a79147u32, 0x06ca6351u32, 0x14292967u32,
        0x27b70a85u32, 0x2e1b2138u32, 0x4d2c6dfcu32, 0x53380d13u32,
        0x650a7354u32, 0x766a0abbu32, 0x81c2c92eu32, 0x92722c85u32,
        0xa2bfe8a1u32, 0xa81a664bu32, 0xc24b8b70u32, 0xc76c51a3u32,
        0xd192e819u32, 0xd6990624u32, 0xf40e3585u32, 0x106aa070u32,
        0x19a4c116u32, 0x1e376c08u32, 0x2748774cu32, 0x34b0bcb5u32,
        0x391c0cb3u32, 0x4ed8aa4au32, 0x5b9cca4fu32, 0x682e6ff3u32,
        0x748f82eeu32, 0x78a5636fu32, 0x84c87814u32, 0x8cc70208u32,
        0x90befffau32, 0xa4506cebu32, 0xbef9a3f7u32, 0xc67178f2u32,
    ]
}

fn constant_table() -> (r: [u32; 64])
    ensures
        r@ == constants(),
{
    let table: [u32; 64] = [
        0x428a2f98u32, 0x71374491u32, 0xb5c0fbcfu32, 0xe9b5dba5u32,
        0x3956c25bu32, 0x59f111f1u32, 0x923f82a4u32, 0xab1c5ed5u32,
        0xd807aa98u32, 0x12835b01u32, 0x243185beu32, 0x550c7dc3u32,
        0x72be5d74u32, 0x80deb1feu32, 0x9bdc06a7u32, 0xc19bf174u32,
        0xe49b69c1u32, 0xefbe4786u32, 0x0fc19dc6u32, 0x240ca1ccu32,
        0x2de92c6fu32, 0x4a7484aau32, 0x5cb0a9dcu32, 0x76f988dau32,
        0x983e5152u32, 0xa831c66du32, 0xb00327c8u32, 0xbf597fc7u32,
        0xc6e00bf3u32, 0xd5a79147u32, 0x06ca6351u32, 0x14292967u32,
        0x27b70a85u32, 0x2e1b2138u32, 0x4d2c6dfcu32, 0x53380d13u32,
        0x650a7354u32, 0x766a0abbu32, 0x81c2c92eu32, 0x92722c85u32,
        0xa2bfe8a1u32, 0xa81a664bu32, 0xc24b8b70u32, 0xc76c51a3u32,
        0xd192e819u32, 0xd6990624u32, 0xf40e3585u32, 0x106aa070u32,
        0x19a4c116u32, 0x1e376c08u32, 0x2748774cu32, 0x34b0bcb5u32,
        0x391c0cb3u32, 0x4ed8aa4au32, 0x5b9cca4fu32, 0x682e6ff3u32,
        0x748f82eeu32, 0x78a5636fu32, 0x84c87814u32, 0x8cc70208u32,
        0x90befffau32, 0xa4506cebu32, 0xbef9a3f7u32, 0xc67178f2u32,
    ];
    assert(table@ =~= constants());
    table
}

/// The sum modulo `2^32`.
pub open spec fn plus(a: u32, b: u32) -> u32 {
    ((a + b) % 0x1_0000_0000) as u32
}

fn add_words(a: u32, b: u32) -> (r: u32)
    ensures
        r == plus(a, b),
{
    ((a as u64 + b as u64) % 0x1_0000_0000) as u32
}

pub open spec fn rotated(x: u32, n: u32) -> u32 {
    (x >> n) | (x << ((32 - n) as u32))
}

fn rotate(x: u32, n: u32) -> (r: u32)
    requires
        0 < n < 32,
    ensures
        r == rotated(x, n),
{
    (x >> n) | (x << (32 - n))
}

pub open spec fn choice(x: u32, y: u32, z: u32) -> u32 {
    (x & y) ^ (!x & z)
}

pub open spec fn majority(x: u32, y: u32, z: u32) -> u32 {
    (x & y) ^ (x & z) ^ (y & z)
}

pub open spec fn big_sigma0(x: u32) -> u32 {
    rotated(x, 2) ^ rotated(x, 13) ^ rotated(x, 22)
}

pub open spec fn big_sigma1(x: u32) -> u32 {
    rotated(x, 6) ^ rotated(x, 11) ^ rotated(x, 25)
}

pub open spec fn small_sigma0(x: u32) -> u32 {
    rotated(x, 7) ^ rotated(x, 18) ^ (x >> 3u32)
}

pub open spec fn small_sigma1(x: u32) -> u32 {
    rotated(x, 17) ^ rotated(x, 19) ^ (x >> 10u32)
}

/// The four bytes at `at` as a number, highest first.
pub open spec fn be32(bytes: Seq<u8>, at: int) -> u32 {
    (0x100_0000 * bytes[at] + 0x1_0000 * bytes[at + 1] + 0x100 * bytes[at + 2] + bytes[at
        + 3]) as u32
}

/// Word `t` of the message schedule of the block at `at`.
pub open spec fn scheduled(bytes: Seq<u8>, at: int, t: int) -> u32
    decreases t,
{
    if t < 16 {
        be32(bytes, at + 4 * t)
    } else {
        plus(
            plus(
                plus(
                    small_sigma1(scheduled(bytes, at, t - 2)),
                    scheduled(bytes, at, t - 7),
                ),
                small_sigma0(scheduled(bytes, at, t - 15)),
            ),
            scheduled(bytes, at, t - 16),
        )
    }
}

/// The eight working variables.
#[derive(Clone, Copy)]
pub struct State {
    pub a: u32,
    pub b: u32,
    pub c: u32,
    pub d: u32,
    pub e: u32,
    pub f: u32,
    pub g: u32,
    pub h: u32,
}

/// What the hash starts from.
pub open spec fn initial() -> State {
    State {
        a: 0x6a09e667,
        b: 0xbb67ae85,
        c: 0x3c6ef372,
        d: 0xa54ff53a,
        e: 0x510e527f,
        f: 0x9b05688c,
        g: 0x1f83d9ab,
        h: 0x5be0cd19,
    }
}

/// The state after one round.
pub open spec fn stepped(s: State, constant: u32, word: u32) -> State {
    let t1 = plus(
        plus(plus(plus(s.h, big_sigma1(s.e)), choice(s.e, s.f, s.g)), constant),
        word,
    );
    let t2 = plus(big_sigma0(s.a), majority(s.a, s.b, s.c));
    State {
        a: plus(t1, t2),
        b: s.a,
        c: s.b,
        d: s.c,
        e: plus(s.d, t1),
        f: s.e,
        g: s.f,
        h: s.g,
    }
}

/// The state after `t` rounds over the block at `at`.
pub open spec fn rounds(s: State, bytes: Seq<u8>, at: int, t: nat) -> State
    decreases t,
{
    if t == 0 {
        s
    } else {
        stepped(
            rounds(s, bytes, at, (t - 1) as nat),
            constants()[t - 1],
            scheduled(bytes, at, t - 1),
        )
    }
}

/// The state after the block at `at`.
pub open spec fn compressed(s: State, bytes: Seq<u8>, at: int) -> State {
    let r = rounds(s, bytes, at, 64);
    State {
        a: plus(s.a, r.a),
        b: plus(s.b, r.b),
        c: plus(s.c, r.c),
        d: plus(s.d, r.d),
        e: plus(s.e, r.e),
        f: plus(s.f, r.f),
        g: plus(s.g, r.g),
        h: plus(s.h, r.h),
    }
}

/// The state after the first `n` blocks.
pub open spec fn hashed(bytes: Seq<u8>, n: nat) -> State
    decreases n,
{
    if n == 0 {
        initial()
    } else {
        compressed(hashed(bytes, (n - 1) as nat), bytes, 64 * (n - 1))
    }
}

/// Byte `i` of a number of `width` bytes, highest first.
pub open spec fn be_byte(n: int, width: int, i: int) -> u8 {
    ((n / pow256(width - 1 - i)) % 0x100) as u8
}

pub open spec fn pow256(k: int) -> int
    decreases k,
{
    if k <= 0 {
        1
    } else {
        0x100 * pow256(k - 1)
    }
}

/// The message with a one bit, zeros up to a whole number of blocks, and its
/// length in bits, modulo `2^64`, in the last eight bytes.
pub open spec fn padded(message: Seq<u8>) -> Seq<u8> {
    let zeros = (119 - message.len() % 64) % 64;
    let bits = (8 * message.len()) % 0x1_0000_0000_0000_0000;
    message.push(0x80) + Seq::new(zeros as nat, |i: int| 0u8) + Seq::new(
        8,
        |i: int| be_byte(bits as int, 8, i),
    )
}

/// The words of a state.
pub open spec fn words_of(s: State) -> Seq<u32> {
    seq![s.a, s.b, s.c, s.d, s.e, s.f, s.g, s.h]
}

/// The digest of a message.
pub open spec fn digest(message: Seq<u8>) -> Seq<u8> {
    let all = padded(message);
    let last = words_of(hashed(all, all.len() / 64));
    Seq::new(32, |i: int| be_byte(last[i / 4] as int, 4, i % 4))
}

/// Bytes in base sixteen, two small digits each.
pub open spec fn hex_of(bytes: Seq<u8>) -> Seq<char>
    decreases bytes.len(),
{
    if bytes.len() == 0 {
        Seq::empty()
    } else {
        hex_of(bytes.drop_last()).push(digit((bytes.last() / 16) as int)).push(
            digit((bytes.last() % 16) as int),
        )
    }
}

proof fn lemma_pow256()
    ensures
        pow256(0) == 1,
        pow256(1) == 0x100,
        pow256(2) == 0x1_0000,
        pow256(3) == 0x100_0000,
        pow256(4) == 0x1_0000_0000,
        pow256(5) == 0x100_0000_0000,
        pow256(6) == 0x1_0000_0000_0000,
        pow256(7) == 0x100_0000_0000_0000,
{
    reveal_with_fuel(pow256, 9);
}

fn schedule(bytes: &Vec<u8>, at: usize) -> (r: Vec<u32>)
    requires
        at + 64 <= bytes@.len(),
    ensures
        r@.len() == 64,
        forall|t: int| 0 <= t < 64 ==> #[trigger] r@[t] == scheduled(bytes@, at as int, t),
{
    let limit: usize = bytes.len();
    let mut w: Vec<u32> = Vec::new();
    let mut t: usize = 0;
    while t < 64
        invariant
            t <= 64,
            at + 64 <= bytes@.len() == limit,
            w@.len() == t,
            forall|j: int| 0 <= j < t ==> #[trigger] w@[j] == scheduled(bytes@, at as int, j),
        decreases 64 - t,
    {
        if t < 16 {
            let i: usize = at + 4 * t;
            let word: u32 = 0x100_0000 * bytes[i] as u32 + 0x1_0000 * bytes[i + 1] as u32 + 0x100
                * bytes[i + 2] as u32 + bytes[i + 3] as u32;
            w.push(word);
        } else {
            let x: u32 = w[t - 2];
            let s1: u32 = rotate(x, 17) ^ rotate(x, 19) ^ (x >> 10u32);
            let y: u32 = w[t - 15];
            let s0: u32 = rotate(y, 7) ^ rotate(y, 18) ^ (y >> 3u32);
            let word: u32 = add_words(add_words(add_words(s1, w[t - 7]), s0), w[t - 16]);
            w.push(word);
        }
        t += 1;
    }
    w
}

fn step(s: &State, constant: u32, word: u32) -> (r: State)
    ensures
        r == stepped(*s, constant, word),
{
    let sum1: u32 = rotate(s.e, 6) ^ rotate(s.e, 11) ^ rotate(s.e, 25);
    let choose_word: u32 = (s.e & s.f) ^ (!s.e & s.g);
    let t1: u32 = add_words(add_words(add_words(add_words(s.h, sum1), choose_word), constant), word);
    let sum0: u32 = rotate(s.a, 2) ^ rotate(s.a, 13) ^ rotate(s.a, 22);
    let most: u32 = (s.a & s.b) ^ (s.a & s.c) ^ (s.b & s.c);
    let t2: u32 = add_words(sum0, most);
    State {
        a: add_words(t1, t2),
        b: s.a,
        c: s.b,
        d: s.c,
        e: add_words(s.d, t1),
        f: s.e,
        g: s.f,
        h: s.g,
    }
}

fn compress(s: &State, bytes: &Vec<u8>, at: usize) -> (r: State)
    requires
        at + 64 <= bytes@.len(),
    ensures
        r == compressed(*s, bytes@, at as int),
{
    let w: Vec<u32> = schedule(bytes, at);
    let k: [u32; 64] = constant_table();
    let mut now: State = *s;
    let mut t: usize = 0;
    while t < 64
        invariant
            t <= 64,
            w@.len() == 64,
            k@ == constants(),
            forall|j: int| 0 <= j < 64 ==> #[trigger] w@[j] == scheduled(bytes@, at as int, j),
            now == rounds(*s, bytes@, at as int, t as nat),
        decreases 64 - t,
    {
        now = step(&now, k[t], w[t]);
        t += 1;
    }
    State {
        a: add_words(s.a, now.a),
        b: add_words(s.b, now.b),
        c: add_words(s.c, now.c),
        d: add_words(s.d, now.d),
        e: add_words(s.e, now.e),
        f: add_words(s.f, now.f),
        g: add_words(s.g, now.g),
        h: add_words(s.h, now.h),
    }
}

/// A message that is being hashed.
pub struct Sha256 {
    message: Vec<u8>,
}

impl View for Sha256 {
    type V = Seq<u8>;

    closed spec fn view(&self) -> Seq<u8> {
        self.message@
    }
}

fn be_bytes_into(out: &mut Vec<u8>, n: u32)
    ensures
        final(out)@ == old(out)@ + Seq::new(4, |i: int| be_byte(n as int, 4, i)),
{
    let ghost before = out@;
    proof {
        lemma_pow256();
    }
    out.push((n / 0x100_0000) as u8);
    out.push(((n / 0x1_0000) % 0x100) as u8);
    out.push(((n / 0x100) % 0x100) as u8);
    out.push((n % 0x100) as u8);
    assert(out@ =~= before + Seq::new(4, |i: int| be_byte(n as int, 4, i)));
}

fn length_bytes_into(out: &mut Vec<u8>, n: u64)
    ensures
        final(out)@ == old(out)@ + Seq::new(8, |i: int| be_byte(n as int, 8, i)),
{
    let ghost before = out@;
    proof {
        lemma_pow256();
    }
    out.push((n / 0x100_0000_0000_0000) as u8);
    out.push(((n / 0x1_0000_0000_0000) % 0x100) as u8);
    out.push(((n / 0x100_0000_0000) % 0x100) as u8);
    out.push(((n / 0x1_0000_0000) % 0x100) as u8);
    out.push(((n / 0x100_0000) % 0x100) as u8);
    out.push(((n / 0x1_0000) % 0x100) as u8);
    out.push(((n / 0x100) % 0x100) as u8);
    out.push((n % 0x100) as u8);
    assert(out@ =~= before + Seq::new(8, |i: int| be_byte(n as int, 8, i)));
}

proof fn lemma_whole_blocks(message: Seq<u8>)
    ensures
        padded(message).len() % 64 == 0,
{
    let length = message.len() as int;
    let rest = length % 64;
    assert(padded(message).len() == length + 9 + (119 - rest) % 64);
    if rest <= 55 {
        assert((119 - rest) % 64 == 55 - rest);
    } else {
        assert((119 - rest) % 64 == 119 - rest);
    }
}

fn zeros_into(out: &mut Vec<u8>, count: usize)
    ensures
        final(out)@ == old(out)@ + Seq::new(count as nat, |i: int| 0u8),
{
    let ghost before = out@;
    let mut i: usize = 0;
    assert(out@ =~= before + Seq::new(0, |i: int| 0u8));
    while i < count
        invariant
            i <= count,
            out@ == before + Seq::new(i as nat, |i: int| 0u8),
        decreases count - i,
    {
        out.push(0);
        i += 1;
        assert(out@ =~= before + Seq::new(i as nat, |i: int| 0u8));
    }
}

fn pad(message: &Vec<u8>) -> (r: Vec<u8>)
    ensures
        r@ == padded(message@),
        r@.len() % 64 == 0,
{
    let length: usize = message.len();
    let mut out: Vec<u8> = Vec::new();
    let mut i: usize = 0;
    while i < length
        invariant
            i <= length == message@.len(),
            out@ == message@.take(i as int),
        decreases length - i,
    {
        out.push(message[i]);
        i += 1;
        assert(out@ =~= message@.take(i as int));
    }
    assert(message@.take(length as int) =~= message@);
    out.push(0x80);
    let zeros: usize = (119 - length % 64) % 64;
    zeros_into(&mut out, zeros);
    let bits: u64 = ((8 * length as u128) % 0x1_0000_0000_0000_0000) as u64;
    length_bytes_into(&mut out, bits);
    proof {
        lemma_whole_blocks(message@);
    }
    out
}

impl Sha256 {
    pub fn new() -> (r: Self)
        ensures
            r@ == Seq::<u8>::empty(),
    {
        Self { message: Vec::new() }
    }

    /// Adds to the message.
    pub fn update(&mut self, data: &[u8])
        ensures
            final(self)@ == old(self)@ + data@,
    {
        let ghost before = self.message@;
        let mut i: usize = 0;
        while i < data.len()
            invariant
                i <= data@.len(),
                self.message@ == before + data@.take(i as int),
            decreases data@.len() - i,
        {
            self.message.push(data[i]);
            i += 1;
            assert(self.message@ =~= before + data@.take(i as int));
        }
        assert(data@.take(data@.len() as int) =~= data@);
    }

    /// The digest of the message.
    pub fn finish(&self) -> (r: Vec<u8>)
        ensures
            r@ == digest(self@),
    {
        let all: Vec<u8> = pad(&self.message);
        let length: usize = all.len();
        let blocks: usize = length / 64;
        let mut s = State {
            a: 0x6a09e667,
            b: 0xbb67ae85,
            c: 0x3c6ef372,
            d: 0xa54ff53a,
            e: 0x510e527f,
            f: 0x9b05688c,
            g: 0x1f83d9ab,
            h: 0x5be0cd19,
        };
        let mut n: usize = 0;
        while n < blocks
            invariant
                n <= blocks,
                blocks == length / 64,
                length == all@.len(),
                s == hashed(all@, n as nat),
            decreases blocks - n,
        {
            s = compress(&s, &all, 64 * n);
            n += 1;
        }
        let mut out: Vec<u8> = Vec::new();
        be_bytes_into(&mut out, s.a);
        be_bytes_into(&mut out, s.b);
        be_bytes_into(&mut out, s.c);
        be_bytes_into(&mut out, s.d);
        be_bytes_into(&mut out, s.e);
        be_bytes_into(&mut out, s.f);
        be_bytes_into(&mut out, s.g);
        be_bytes_into(&mut out, s.h);
        proof {
            let words = words_of(s);
            assert(out@.len() == 32);
            assert(out@ =~= Seq::new(32, |i: int| be_byte(words[i / 4] as int, 4, i % 4)));
        }
        out
    }
}

/// Bytes in base sixteen, two small digits each.
pub fn to_hex(bytes: &[u8]) -> (r: String)
    ensures
        r@ == hex_of(bytes@),
{
    let mut out = String::new();
    for i in 0..bytes.len()
        invariant
            out@ == hex_of(bytes@.take(i as int)),
    {
        assert(bytes@.take(i + 1).drop_last() =~= bytes@.take(i as int));
        let byte: u8 = bytes[i];
        let high: u8 = byte / 16;
        let low: u8 = byte % 16;
        out.push(
            if high < 10 {
                (48 + high) as char
            } else {
                (87 + high) as char
            },
        );
        out.push(
            if low < 10 {
                (48 + low) as char
            } else {
                (87 + low) as char
            },
        );
    }
    assert(bytes@.take(bytes@.len() as int) =~= bytes@);
    out
}

/// The digest of `data` in base sixteen.
pub fn hex_digest(data: &[u8]) -> (r: String)
    ensures
        r@ == hex_of(digest(data@)),
{
    let mut hasher = Sha256::new();
    hasher.update(data);
    assert(hasher@ =~= data@);
    to_hex(hasher.finish().as_slice())
}

/// The number that eight bytes spell, highest first.
pub open spec fn be64(bytes: Seq<u8>, at: int) -> int {
    0x1_0000_0000 * (0x100_0000 * bytes[at] + 0x1_0000 * bytes[at + 1] + 0x100 * bytes[at + 2]
        + bytes[at + 3]) + (0x100_0000 * bytes[at + 4] + 0x1_0000 * bytes[at + 5] + 0x100 * bytes[at
        + 6] + bytes[at + 7])
}

proof fn lemma_digit(n: int, d: int)
    requires
        0 <= n,
        0 < d,
    ensures
        n / d == 0x100 * (n / (d * 0x100)) + (n / d) % 0x100,
{
    vstd::arithmetic::div_mod::lemma_div_denominator(n, d, 0x100);
    vstd::arithmetic::div_mod::lemma_fundamental_div_mod(n / d, 0x100);
}

proof fn lemma_eight_bytes(n: int)
    requires
        0 <= n < 0x1_0000_0000_0000_0000,
    ensures
        be64(Seq::new(8, |i: int| be_byte(n, 8, i)), 0) == n,
{
    lemma_pow256();
    let s = Seq::new(8, |i: int| be_byte(n, 8, i));
    lemma_digit(n, 1);
    lemma_digit(n, 0x100);
    lemma_digit(n, 0x1_0000);
    lemma_digit(n, 0x100_0000);
    lemma_digit(n, 0x1_0000_0000);
    lemma_digit(n, 0x100_0000_0000);
    lemma_digit(n, 0x1_0000_0000_0000);
    lemma_digit(n, 0x100_0000_0000_0000);
    let q0 = n / 1;
    let q1 = n / 0x100;
    let q2 = n / 0x1_0000;
    let q3 = n / 0x100_0000;
    let q4 = n / 0x1_0000_0000;
    let q5 = n / 0x100_0000_0000;
    let q6 = n / 0x1_0000_0000_0000;
    let q7 = n / 0x100_0000_0000_0000;
    assert(n / 0x1_0000_0000_0000_0000 == 0);
    lemma_combined(
        n,
        q1,
        q2,
        q3,
        q4,
        q5,
        q6,
        q7,
        s[0] as int,
        s[1] as int,
        s[2] as int,
        s[3] as int,
        s[4] as int,
        s[5] as int,
        s[6] as int,
        s[7] as int,
    );
}

proof fn lemma_combined(
    n: int,
    q1: int,
    q2: int,
    q3: int,
    q4: int,
    q5: int,
    q6: int,
    q7: int,
    b0: int,
    b1: int,
    b2: int,
    b3: int,
    b4: int,
    b5: int,
    b6: int,
    b7: int,
)
    requires
        n == 0x100 * q1 + b7,
        q1 == 0x100 * q2 + b6,
        q2 == 0x100 * q3 + b5,
        q3 == 0x100 * q4 + b4,
        q4 == 0x100 * q5 + b3,
        q5 == 0x100 * q6 + b2,
        q6 == 0x100 * q7 + b1,
        q7 == b0,
    ensures
        n == 0x1_0000_0000 * (0x100_0000 * b0 + 0x1_0000 * b1 + 0x100 * b2 + b3) + (0x100_0000 * b4
            + 0x1_0000 * b5 + 0x100 * b6 + b7),
{
}

/// A message is padded to whole blocks of sixty-four bytes, by no more than it
/// takes: with one byte `0x80`, zeros, and its length in bits in the last eight
/// bytes, highest first.
pub proof fn a_message_is_padded_to_whole_blocks(message: Seq<u8>)
    ensures
        padded(message).len() % 64 == 0,
        message.len() + 9 <= padded(message).len() <= message.len() + 72,
        padded(message).take(message.len() as int) == message,
        padded(message)[message.len() as int] == 0x80,
        forall|i: int|
            message.len() < i < padded(message).len() - 8 ==> #[trigger] padded(message)[i] == 0,
        be64(padded(message), padded(message).len() - 8) == (8 * message.len())
            % 0x1_0000_0000_0000_0000,
{
    let n = message.len() as int;
    let all = padded(message);
    let bits = ((8 * message.len()) % 0x1_0000_0000_0000_0000) as int;
    let tail = Seq::new(8, |i: int| be_byte(bits, 8, i));
    lemma_eight_bytes(bits);
    assert(all.take(n) =~= message);
    let end = all.len() - 8;
    assert(all[end] == tail[0]);
    assert(all[end + 1] == tail[1]);
    assert(all[end + 2] == tail[2]);
    assert(all[end + 3] == tail[3]);
    assert(all[end + 4] == tail[4]);
    assert(all[end + 5] == tail[5]);
    assert(all[end + 6] == tail[6]);
    assert(all[end + 7] == tail[7]);
}

/// Every block of the padded message counts, one after the other.
pub proof fn every_block_is_hashed(bytes: Seq<u8>, n: nat)
    ensures
        hashed(bytes, 0) == initial(),
        hashed(bytes, n + 1) == compressed(hashed(bytes, n), bytes, 64 * n as int),
{
}

/// The digest is the state after all blocks, each word highest byte first.
pub proof fn the_digest_is_the_state_after_all_blocks(message: Seq<u8>, blocks: nat, i: int)
    requires
        padded(message).len() == 64 * blocks,
        0 <= i < 8,
    ensures
        digest(message).len() == 32,
        be32(digest(message), 4 * i) == words_of(hashed(padded(message), blocks))[i],
{
    let state = hashed(padded(message), blocks);
    let word = words_of(state)[i];
    let all = digest(message);
    assert(padded(message).len() / 64 == blocks);
    lemma_pow256();
    assert((4 * i) / 4 == i && (4 * i + 1) / 4 == i && (4 * i + 2) / 4 == i && (4 * i + 3) / 4 == i);
    assert(all[4 * i] == be_byte(word as int, 4, 0));
    assert(all[4 * i + 1] == be_byte(word as int, 4, 1));
    assert(all[4 * i + 2] == be_byte(word as int, 4, 2));
    assert(all[4 * i + 3] == be_byte(word as int, 4, 3));
    lemma_digit(word as int, 1);
    lemma_digit(word as int, 0x100);
    lemma_digit(word as int, 0x1_0000);
    assert(word / 0x100_0000 < 0x100);
}

/// Bytes are written as two small hex digits each, in order.
pub proof fn bytes_are_written_as_two_digits(bytes: Seq<u8>, i: int)
    requires
        0 <= i < bytes.len(),
    ensures
        hex_of(bytes).len() == 2 * bytes.len(),
        nibble(hex_of(bytes)[2 * i]) == Some((bytes[i] / 16) as int),
        nibble(hex_of(bytes)[2 * i + 1]) == Some((bytes[i] % 16) as int),
        !('A' <= hex_of(bytes)[2 * i] && hex_of(bytes)[2 * i] <= 'F'),
        !('A' <= hex_of(bytes)[2 * i + 1] && hex_of(bytes)[2 * i + 1] <= 'F'),
    decreases bytes.len(),
{
    lemma_hex_length(bytes.drop_last());
    if i < bytes.len() - 1 {
        bytes_are_written_as_two_digits(bytes.drop_last(), i);
    }
}

proof fn lemma_hex_length(bytes: Seq<u8>)
    ensures
        hex_of(bytes).len() == 2 * bytes.len(),
    decreases bytes.len(),
{
    if bytes.len() > 0 {
        lemma_hex_length(bytes.drop_last());
    }
}

} // verus!
