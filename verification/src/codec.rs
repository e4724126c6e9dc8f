//! A verified binary codec for game snapshots: saving writes these bytes
//! and loading reads them back, provably losing nothing.

use vstd::arithmetic::div_mod::lemma_breakdown;
use vstd::prelude::*;
use vstd::std_specs::iter::IteratorSpec;

use crate::color::Color;
use crate::game::Game;
use crate::game::GameSettings;
use crate::game::Messages;
use crate::game::Tile;
use crate::objects::Ai;
use crate::objects::DeathCallback;
use crate::objects::DisplayObj;
use crate::objects::Equipment;
use crate::objects::Fighter;
use crate::objects::Item;
use crate::objects::Slot;

verus! {

/// 256 to the `n`.
pub open spec fn pow256(n: nat) -> int
    decreases n,
{
    if n == 0 {
        1
    } else {
        256 * pow256((n - 1) as nat)
    }
}

pub proof fn lemma_pow256_pos(n: nat)
    ensures
        pow256(n) >= 1,
    decreases n,
{
    if n > 0 {
        lemma_pow256_pos((n - 1) as nat);
    }
}

/// For at most eight bytes the power stays within a `u64`'s reach.
pub proof fn lemma_pow256_at_most_eight(n: nat)
    requires
        n <= 8,
    ensures
        pow256(n) <= 0x10000000000000000,
    decreases n,
{
    if n > 0 {
        lemma_pow256_at_most_eight((n - 1) as nat);
        assert(pow256(n) == 256 * pow256((n - 1) as nat));
        assert(pow256((n - 1) as nat) <= 0x100000000000000) by {
            lemma_pow256_unfoldings();
        }
    }
}

/// The concrete values of the small powers the codec uses.
pub proof fn lemma_pow256_unfoldings()
    ensures
        pow256(0) == 1,
        pow256(1) == 0x100,
        pow256(2) == 0x10000,
        pow256(3) == 0x1000000,
        pow256(4) == 0x100000000,
        pow256(5) == 0x10000000000,
        pow256(6) == 0x1000000000000,
        pow256(7) == 0x100000000000000,
        pow256(8) == 0x10000000000000000,
{
    assert(pow256(0) == 1);
    assert(pow256(1) == 256 * pow256(0));
    assert(pow256(2) == 256 * pow256(1));
    assert(pow256(3) == 256 * pow256(2));
    assert(pow256(4) == 256 * pow256(3));
    assert(pow256(5) == 256 * pow256(4));
    assert(pow256(6) == 256 * pow256(5));
    assert(pow256(7) == 256 * pow256(6));
    assert(pow256(8) == 256 * pow256(7));
}

/// Encodings have the length they promise.
pub proof fn lemma_bytes_be_len(v: int, n: nat)
    ensures
        bytes_be(v, n).len() == n,
    decreases n,
{
    if n > 0 {
        lemma_bytes_be_len(v / 256, (n - 1) as nat);
    }
}

/// `v` in base 256, big-endian, on `n` bytes.
pub open spec fn bytes_be(v: int, n: nat) -> Seq<u8>
    decreases n,
{
    if n == 0 {
        Seq::empty()
    } else {
        bytes_be(v / 256, (n - 1) as nat).push((v % 256) as u8)
    }
}

/// The value a big-endian byte string denotes.
pub open spec fn val_of(s: Seq<u8>) -> int
    decreases s.len(),
{
    if s.len() == 0 {
        0
    } else {
        256 * val_of(s.drop_last()) + s.last()
    }
}

/// Reading back the `n` big-endian bytes of `v` recovers `v` modulo
/// `256^n`.
pub proof fn lemma_val_of_bytes_be(v: int, n: nat)
    requires
        0 <= v,
    ensures
        val_of(bytes_be(v, n)) == v % pow256(n),
    decreases n,
{
    if n == 0 {
        assert(v % 1 == 0) by (nonlinear_arith)
            requires
                v >= 0,
        ;
    } else {
        lemma_val_of_bytes_be(v / 256, (n - 1) as nat);
        lemma_pow256_pos((n - 1) as nat);
        lemma_breakdown(v, 256, pow256((n - 1) as nat));
        assert(bytes_be(v, n).drop_last() =~= bytes_be(v / 256, (n - 1) as nat));
    }
}

/// The byte string `e` stands at position `pos` of `buf`.
pub open spec fn enc_at(buf: Seq<u8>, pos: int, e: Seq<u8>) -> bool {
    &&& 0 <= pos
    &&& pos + e.len() <= buf.len()
    &&& buf.subrange(pos, pos + e.len()) == e
}

/// A concatenation at `pos` splits into its two halves.
pub proof fn lemma_enc_at_split(buf: Seq<u8>, pos: int, e1: Seq<u8>, e2: Seq<u8>)
    requires
        enc_at(buf, pos, e1 + e2),
    ensures
        enc_at(buf, pos, e1),
        enc_at(buf, pos + e1.len(), e2),
{
    let e = e1 + e2;
    assert forall|k: int| 0 <= k < e.len() implies buf[pos + k] == #[trigger] e[k] by {
        assert(buf.subrange(pos, pos + e.len())[k] == e[k]);
    }
    assert(buf.subrange(pos, pos + e1.len()) =~= e1);
    assert forall|k: int|
        0 <= k < e2.len() implies buf.subrange(
        pos + e1.len(),
        pos + e1.len() + e2.len(),
    )[k] == e2[k] by {
        assert(e[e1.len() + k] == e2[k]);
        assert(buf[pos + (e1.len() + k)] == e[e1.len() + k]);
    }
    assert(buf.subrange(pos + e1.len(), pos + e1.len() + e2.len()) =~= e2);
}

/// Append `v` as `n` big-endian bytes.
fn put_be(out: &mut Vec<u8>, v: u64, n: usize)
    requires
        n <= 8,
        (v as int) < pow256(n as nat),
    ensures
        final(out)@ == old(out)@ + bytes_be(v as int, n as nat),
    decreases n,
{
    if n == 0 {
        proof {
            assert(out@ =~= old(out)@ + bytes_be(v as int, 0));
        }
        return ;
    }
    proof {
        assert((v as int) / 256 < pow256((n - 1) as nat)) by (nonlinear_arith)
            requires
                (v as int) < pow256(n as nat),
                pow256(n as nat) == 256 * pow256((n - 1) as nat),
                v >= 0,
        ;
    }
    put_be(out, v / 256, n - 1);
    out.push((v % 256) as u8);
    proof {
        assert(out@ =~= old(out)@ + bytes_be(v as int, n as nat));
    }
}

/// Read `n` big-endian bytes; with a ghost expectation that the bytes
/// encode `v`, the result is exactly `v`.
fn take_be(buf: &Vec<u8>, pos: usize, n: usize, Ghost(gv): Ghost<Option<u64>>) -> (r: Option<
    (u64, usize),
>)
    requires
        n <= 8,
        gv matches Some(v) ==> (v as int) < pow256(n as nat) && enc_at(
            buf@,
            pos as int,
            bytes_be(v as int, n as nat),
        ),
    ensures
        gv matches Some(v) ==> r == Some((v, (pos + n) as usize)),
        r matches Some(x) ==> x.1 == pos + n && pos + n <= buf@.len(),
{
    proof {
        match gv {
            Some(v) => {
                lemma_bytes_be_len(v as int, n as nat);
            },
            None => {},
        }
    }
    if pos > buf.len() || n > buf.len() - pos {
        proof {
            if gv is Some {
                assert(false);
            }
        }
        return None;
    }
    let total = buf.len();
    let ghost ebytes = match gv {
        Some(v) => bytes_be(v as int, n as nat),
        None => Seq::empty(),
    };
    proof {
        if gv is Some {
            assert(ebytes.take(0) =~= Seq::<u8>::empty());
        }
    }
    let mut acc: u64 = 0;
    let mut i: usize = 0;
    while i < n
        invariant
            0 <= i <= n,
            n <= 8,
            pos + n <= buf@.len(),
            buf@.len() == total,
            gv matches Some(v) ==> {
                &&& ebytes == bytes_be(v as int, n as nat)
                &&& ebytes.len() == n
                &&& enc_at(buf@, pos as int, ebytes)
                &&& acc as int == val_of(ebytes.take(i as int))
                &&& (acc as int) < pow256(i as nat)
            },
        decreases n - i,
    {
        let b = buf[pos + i];
        proof {
            if gv is Some {
                assert(ebytes.take(i as int + 1).drop_last() =~= ebytes.take(i as int));
                assert(ebytes.take(i as int + 1).last() == ebytes[i as int]);
                assert(ebytes[i as int] == buf@.subrange(pos as int, pos + ebytes.len())[i as int]);
                assert(256 * (acc as int) + (b as int) < 256 * pow256(i as nat))
                    by (nonlinear_arith)
                    requires
                        (acc as int) <= pow256(i as nat) - 1,
                        (b as int) < 256,
                ;
                lemma_pow256_at_most_eight((i + 1) as nat);
            }
        }
        if acc > 0xffffffffffffff {
            // eight big-endian bytes never push a well-formed value this
            // high before the final byte
            proof {
                if gv is Some {
                    lemma_pow256_unfoldings();
                    assert(i <= 7);
                    lemma_pow256_monotone(i as nat, 7);
                    assert(false);
                }
            }
            return None;
        }
        acc = acc * 256 + b as u64;
        i = i + 1;
    }
    proof {
        match gv {
            Some(v) => {
                assert(ebytes.take(n as int) =~= ebytes);
                lemma_val_of_bytes_be(v as int, n as nat);
                lemma_pow256_pos(n as nat);
                assert((v as int) % pow256(n as nat) == v as int) by (nonlinear_arith)
                    requires
                        0 <= (v as int) < pow256(n as nat),
                ;
            },
            None => {},
        }
    }
    Some((acc, pos + n))
}

pub proof fn lemma_pow256_monotone(a: nat, b: nat)
    requires
        a <= b,
    ensures
        pow256(a) <= pow256(b),
    decreases b,
{
    if a < b {
        lemma_pow256_monotone(a, (b - 1) as nat);
        lemma_pow256_pos((b - 1) as nat);
    }
}


/// Relies on `String::push`: it appends exactly the given character.
#[verifier::external_body]
fn push_char(s: &mut String, c: char)
    ensures
        final(s)@ == old(s)@.push(c),
{
    s.push(c);
}

/// Relies on `char::from_u32`: it returns the character with the given
/// scalar value exactly when that value is a Unicode scalar, that is,
/// below the surrogate range or between its end and 0x110000.
#[verifier::external_body]
fn char_from_u32(u: u32) -> (r: Option<char>)
    ensures
        r matches Some(c) ==> c as u32 == u,
        u < 0xD800 || (0xE000 <= u && u < 0x110000) ==> r is Some,
{
    char::from_u32(u)
}

/// The characters of a string, collected by walking its `Chars` iterator.
fn str_chars(s: &str) -> (v: Vec<char>)
    ensures
        v@ == s@,
{
    broadcast use vstd::string::axiom_spec_iter;
    broadcast use vstd::string::next_postcondition;

    let mut it = s.chars();
    let mut v: Vec<char> = Vec::new();
    loop
        invariant_except_break
            it.obeys_prophetic_iter_laws(),
            it.decrease() is Some,
            v@ + it.remaining() == s@,
        ensures
            v@ == s@,
        decreases it.decrease()->0,
    {
        match it.next() {
            Some(c) => {
                v.push(c);
                proof {
                    assert(v@ + it.remaining() =~= s@);
                }
            },
            None => {
                proof {
                    assert(v@ =~= s@);
                }
                break ;
            },
        }
    }
    v
}

/// One character on four bytes.
pub open spec fn enc_char(c: char) -> Seq<u8> {
    bytes_be(c as u32 as int, 4)
}

/// The characters of `s` from index `i` on, four bytes each.
pub open spec fn enc_chars(s: Seq<char>, i: int) -> Seq<u8>
    decreases s.len() - i,
{
    if i < 0 || i >= s.len() {
        Seq::empty()
    } else {
        enc_char(s[i]) + enc_chars(s, i + 1)
    }
}

/// A string: its character count on eight bytes, then its characters.
pub open spec fn enc_str(s: Seq<char>) -> Seq<u8> {
    bytes_be(s.len() as int, 8) + enc_chars(s, 0)
}

pub proof fn lemma_enc_chars_len(s: Seq<char>, i: int)
    requires
        0 <= i <= s.len(),
    ensures
        enc_chars(s, i).len() == 4 * (s.len() - i),
    decreases s.len() - i,
{
    if i < s.len() {
        lemma_enc_chars_len(s, i + 1);
        lemma_bytes_be_len(s[i] as u32 as int, 4);
    }
}

/// Append the encoding of a string.
fn encode_str(out: &mut Vec<u8>, s: &String)
    ensures
        final(out)@ == old(out)@ + enc_str(s@),
{
    let cs = str_chars(s.as_str());
    let count = cs.len();
    proof {
        lemma_pow256_unfoldings();
        assert(count == s@.len());
    }
    put_be(out, count as u64, 8);
    let mut i: usize = 0;
    while i < cs.len()
        invariant
            0 <= i <= cs@.len(),
            cs@ == s@,
            out@ == old(out)@ + bytes_be(s@.len() as int, 8) + enc_chars_prefix(s@, i as int),
        decreases cs@.len() - i,
    {
        let c = cs[i];
        proof {
            lemma_pow256_unfoldings();
            lemma_enc_chars_prefix_snoc(s@, i as int);
        }
        put_be(out, c as u32 as u64, 4);
        i = i + 1;
    }
    proof {
        lemma_enc_chars_prefix_full(s@, 0);
        assert(out@ =~= old(out)@ + enc_str(s@));
    }
}

/// The encodings of the first `i` characters.
pub open spec fn enc_chars_prefix(s: Seq<char>, i: int) -> Seq<u8>
    decreases i,
{
    if i <= 0 || i > s.len() {
        Seq::empty()
    } else {
        enc_chars_prefix(s, i - 1) + enc_char(s[i - 1])
    }
}

pub proof fn lemma_enc_chars_prefix_snoc(s: Seq<char>, i: int)
    requires
        0 <= i < s.len(),
    ensures
        enc_chars_prefix(s, i + 1) == enc_chars_prefix(s, i) + enc_char(s[i]),
{
}

/// The full prefix equals the suffix-form encoding.
pub proof fn lemma_enc_chars_prefix_full(s: Seq<char>, i: int)
    requires
        0 <= i <= s.len(),
    ensures
        enc_chars_prefix(s, s.len() as int) == enc_chars_prefix(s, i) + enc_chars(s, i),
    decreases s.len() - i,
{
    if i == s.len() {
        assert(enc_chars_prefix(s, i) + enc_chars(s, i) =~= enc_chars_prefix(s, i));
    } else {
        lemma_enc_chars_prefix_full(s, i + 1);
        lemma_enc_chars_prefix_snoc(s, i);
        assert((enc_chars_prefix(s, i) + enc_char(s[i])) + enc_chars(s, i + 1)
            =~= enc_chars_prefix(s, i) + (enc_char(s[i]) + enc_chars(s, i + 1)));
    }
}

/// Decode a string; with a ghost expectation the result's view is
/// exactly the expected character sequence.
fn decode_str(buf: &Vec<u8>, pos: usize, Ghost(gs): Ghost<Option<Seq<char>>>) -> (r: Option<
    (String, usize),
>)
    requires
        gs matches Some(s) ==> s.len() <= usize::MAX && enc_at(buf@, pos as int, enc_str(s)),
    ensures
        gs matches Some(s) ==> (r matches Some(p) && p.0@ == s && p.1 == pos + enc_str(s).len()),
{
    let buf_len = buf.len();
    proof {
        match gs {
            Some(s) => {
                lemma_pow256_unfoldings();
                lemma_enc_at_split(buf@, pos as int, bytes_be(s.len() as int, 8), enc_chars(s, 0));
                lemma_bytes_be_len(s.len() as int, 8);
                lemma_enc_chars_len(s, 0);
            },
            None => {},
        }
    }
    let ghost glen = match gs {
        Some(s) => Some(s.len() as u64),
        None => None::<u64>,
    };
    let (len64, mut p) = match take_be(buf, pos, 8, Ghost(glen)) {
        Some(x) => x,
        None => {
            return None;
        },
    };
    if len64 > usize::MAX as u64 {
        proof {
            if gs is Some {
                assert(false);
            }
        }
        return None;
    }
    let n = len64 as usize;
    let mut out = String::new();
    proof {
        match gs {
            Some(s) => {
                assert(out@ =~= s.take(0));
                lemma_bytes_be_len(s.len() as int, 8);
            },
            None => {},
        }
    }
    let mut i: usize = 0;
    while i < n
        invariant
            0 <= i <= n,
            buf@.len() == buf_len,
            gs matches Some(s) ==> n == s.len(),
            gs matches Some(s) ==> out@ == s.take(i as int),
            gs matches Some(s) ==> p == pos + 8 + 4 * i,
            gs matches Some(s) ==> enc_at(buf@, p as int, enc_chars(s, i as int)),
        decreases n - i,
    {
        let ghost gc = match gs {
            Some(s) => Some(s[i as int] as u32 as u64),
            None => None::<u64>,
        };
        proof {
            match gs {
                Some(s) => {
                    lemma_pow256_unfoldings();
                    lemma_enc_at_split(
                        buf@,
                        p as int,
                        enc_char(s[i as int]),
                        enc_chars(s, i as int + 1),
                    );
                    lemma_bytes_be_len(s[i as int] as u32 as int, 4);
                },
                None => {},
            }
        }
        let (code, p2) = match take_be(buf, p, 4, Ghost(gc)) {
            Some(x) => x,
            None => {
                return None;
            },
        };
        if code > u32::MAX as u64 {
            proof {
                if gs is Some {
                    assert(false);
                }
            }
            return None;
        }
        let c = match char_from_u32(code as u32) {
            Some(c) => c,
            None => {
                proof {
                    match gs {
                        Some(s) => {
                            vstd::utf8::char_is_scalar(s[i as int]);
                            assert(code == s[i as int] as u32);
                            assert(false);
                        },
                        None => {},
                    }
                }
                return None;
            },
        };
        push_char(&mut out, c);
        proof {
            match gs {
                Some(s) => {
                    vstd::utf8::char_u32_cast(c, code as u32);
                    vstd::utf8::char_u32_cast(s[i as int], code as u32);
                    assert(c == s[i as int]);
                    assert(out@ =~= s.take(i as int + 1));
                },
                None => {},
            }
        }
        p = p2;
        i = i + 1;
    }
    proof {
        match gs {
            Some(s) => {
                assert(out@ =~= s);
                lemma_enc_chars_len(s, 0);
                lemma_bytes_be_len(s.len() as int, 8);
            },
            None => {},
        }
    }
    Some((out, p))
}


/// Unsigned and signed scalars, flags and characters on fixed widths.
pub open spec fn enc_u8v(v: u8) -> Seq<u8> {
    bytes_be(v as int, 1)
}

pub open spec fn enc_bool(b: bool) -> Seq<u8> {
    bytes_be(
        if b {
            1
        } else {
            0
        },
        1,
    )
}

pub open spec fn enc_u32v(v: u32) -> Seq<u8> {
    bytes_be(v as int, 4)
}

pub open spec fn enc_u64v(v: u64) -> Seq<u8> {
    bytes_be(v as int, 8)
}

/// A signed 32-bit value, shifted into the unsigned range.
pub open spec fn enc_i32v(v: i32) -> Seq<u8> {
    bytes_be(v + 0x80000000, 4)
}

fn put_u8(out: &mut Vec<u8>, v: u8)
    ensures
        final(out)@ == old(out)@ + enc_u8v(v),
{
    proof {
        lemma_pow256_unfoldings();
    }
    put_be(out, v as u64, 1);
}

fn put_bool(out: &mut Vec<u8>, b: bool)
    ensures
        final(out)@ == old(out)@ + enc_bool(b),
{
    proof {
        lemma_pow256_unfoldings();
    }
    put_be(
        out,
        if b {
            1
        } else {
            0
        },
        1,
    );
}

fn put_u32(out: &mut Vec<u8>, v: u32)
    ensures
        final(out)@ == old(out)@ + enc_u32v(v),
{
    proof {
        lemma_pow256_unfoldings();
    }
    put_be(out, v as u64, 4);
}

fn put_u64(out: &mut Vec<u8>, v: u64)
    ensures
        final(out)@ == old(out)@ + enc_u64v(v),
{
    proof {
        lemma_pow256_unfoldings();
    }
    put_be(out, v, 8);
}

fn put_i32(out: &mut Vec<u8>, v: i32)
    ensures
        final(out)@ == old(out)@ + enc_i32v(v),
{
    proof {
        lemma_pow256_unfoldings();
    }
    let shifted: u64 = (v as i64 + 0x80000000) as u64;
    put_be(out, shifted, 4);
}

fn put_char(out: &mut Vec<u8>, c: char)
    ensures
        final(out)@ == old(out)@ + enc_char(c),
{
    proof {
        lemma_pow256_unfoldings();
        vstd::utf8::char_is_scalar(c);
    }
    put_be(out, c as u32 as u64, 4);
}

fn take_u8(buf: &Vec<u8>, pos: usize, Ghost(g): Ghost<Option<u8>>) -> (r: Option<(u8, usize)>)
    requires
        g matches Some(v) ==> enc_at(buf@, pos as int, enc_u8v(v)),
    ensures
        g matches Some(v) ==> r == Some((v, (pos + 1) as usize)),
        r matches Some(x) ==> x.1 == pos + 1 && pos + 1 <= buf@.len(),
{
    proof {
        lemma_pow256_unfoldings();
    }
    let ghost gw = match g {
        Some(v) => Some(v as u64),
        None => None::<u64>,
    };
    match take_be(buf, pos, 1, Ghost(gw)) {
        Some((x, p)) => {
            if x > 0xff {
                proof {
                    if g is Some {
                        assert(false);
                    }
                }
                None
            } else {
                Some((x as u8, p))
            }
        },
        None => {
            proof {
                if g is Some {
                    assert(false);
                }
            }
            None
        },
    }
}

fn take_bool(buf: &Vec<u8>, pos: usize, Ghost(g): Ghost<Option<bool>>) -> (r: Option<
    (bool, usize),
>)
    requires
        g matches Some(v) ==> enc_at(buf@, pos as int, enc_bool(v)),
    ensures
        g matches Some(v) ==> r == Some((v, (pos + 1) as usize)),
{
    proof {
        lemma_pow256_unfoldings();
    }
    let ghost gw = match g {
        Some(v) => Some(
            (if v {
                1u64
            } else {
                0u64
            }),
        ),
        None => None::<u64>,
    };
    match take_be(buf, pos, 1, Ghost(gw)) {
        Some((x, p)) => {
            if x == 0 {
                Some((false, p))
            } else if x == 1 {
                Some((true, p))
            } else {
                proof {
                    if g is Some {
                        assert(false);
                    }
                }
                None
            }
        },
        None => {
            proof {
                if g is Some {
                    assert(false);
                }
            }
            None
        },
    }
}

fn take_u32(buf: &Vec<u8>, pos: usize, Ghost(g): Ghost<Option<u32>>) -> (r: Option<(u32, usize)>)
    requires
        g matches Some(v) ==> enc_at(buf@, pos as int, enc_u32v(v)),
    ensures
        g matches Some(v) ==> r == Some((v, (pos + 4) as usize)),
{
    proof {
        lemma_pow256_unfoldings();
    }
    let ghost gw = match g {
        Some(v) => Some(v as u64),
        None => None::<u64>,
    };
    match take_be(buf, pos, 4, Ghost(gw)) {
        Some((x, p)) => {
            if x > u32::MAX as u64 {
                proof {
                    if g is Some {
                        assert(false);
                    }
                }
                None
            } else {
                Some((x as u32, p))
            }
        },
        None => {
            proof {
                if g is Some {
                    assert(false);
                }
            }
            None
        },
    }
}

fn take_u64(buf: &Vec<u8>, pos: usize, Ghost(g): Ghost<Option<u64>>) -> (r: Option<(u64, usize)>)
    requires
        g matches Some(v) ==> enc_at(buf@, pos as int, enc_u64v(v)),
    ensures
        g matches Some(v) ==> r == Some((v, (pos + 8) as usize)),
{
    proof {
        lemma_pow256_unfoldings();
        lemma_pow256_at_most_eight(8);
    }
    take_be(buf, pos, 8, Ghost(g))
}

fn take_i32(buf: &Vec<u8>, pos: usize, Ghost(g): Ghost<Option<i32>>) -> (r: Option<(i32, usize)>)
    requires
        g matches Some(v) ==> enc_at(buf@, pos as int, enc_i32v(v)),
    ensures
        g matches Some(v) ==> r == Some((v, (pos + 4) as usize)),
        r matches Some(x) ==> x.1 == pos + 4 && pos + 4 <= buf@.len(),
{
    proof {
        lemma_pow256_unfoldings();
    }
    let ghost gw = match g {
        Some(v) => Some((v as i64 + 0x80000000) as u64),
        None => None::<u64>,
    };
    match take_be(buf, pos, 4, Ghost(gw)) {
        Some((x, p)) => {
            if x >= 0x100000000 {
                proof {
                    if g is Some {
                        assert(false);
                    }
                }
                None
            } else {
                let v: i32 = (x as i64 - 0x80000000) as i32;
                Some((v, p))
            }
        },
        None => {
            proof {
                if g is Some {
                    assert(false);
                }
            }
            None
        },
    }
}

fn take_char(buf: &Vec<u8>, pos: usize, Ghost(g): Ghost<Option<char>>) -> (r: Option<
    (char, usize),
>)
    requires
        g matches Some(c) ==> enc_at(buf@, pos as int, enc_char(c)),
    ensures
        g matches Some(c) ==> r == Some((c, (pos + 4) as usize)),
{
    proof {
        lemma_pow256_unfoldings();
        match g {
            Some(c) => {
                vstd::utf8::char_is_scalar(c);
            },
            None => {},
        }
    }
    let ghost gw = match g {
        Some(c) => Some(c as u32 as u64),
        None => None::<u64>,
    };
    match take_be(buf, pos, 4, Ghost(gw)) {
        Some((x, p)) => {
            if x > u32::MAX as u64 {
                proof {
                    if g is Some {
                        assert(false);
                    }
                }
                return None;
            }
            match char_from_u32(x as u32) {
                Some(c) => {
                    proof {
                        match g {
                            Some(c0) => {
                                vstd::utf8::char_u32_cast(c, x as u32);
                                vstd::utf8::char_u32_cast(c0, x as u32);
                            },
                            None => {},
                        }
                    }
                    Some((c, p))
                },
                None => {
                    proof {
                        match g {
                            Some(c0) => {
                                vstd::utf8::char_is_scalar(c0);
                                assert(false);
                            },
                            None => {},
                        }
                    }
                    None
                },
            }
        },
        None => {
            proof {
                if g is Some {
                    assert(false);
                }
            }
            None
        },
    }
}


pub proof fn lemma_scalar_enc_lens()
    ensures
        forall|b: u8| (#[trigger] enc_u8v(b)).len() == 1,
        forall|f: bool| (#[trigger] enc_bool(f)).len() == 1,
        forall|u: u32| (#[trigger] enc_u32v(u)).len() == 4,
        forall|v: i32| (#[trigger] enc_i32v(v)).len() == 4,
        forall|c: char| (#[trigger] enc_char(c)).len() == 4,
        forall|w: u64| (#[trigger] enc_u64v(w)).len() == 8,
{
    assert forall|b: u8| (#[trigger] enc_u8v(b)).len() == 1 by {
        lemma_bytes_be_len(b as int, 1);
    }
    assert forall|f: bool| (#[trigger] enc_bool(f)).len() == 1 by {
        lemma_bytes_be_len(
            if f {
                1
            } else {
                0
            },
            1,
        );
    }
    assert forall|u: u32| (#[trigger] enc_u32v(u)).len() == 4 by {
        lemma_bytes_be_len(u as int, 4);
    }
    assert forall|v: i32| (#[trigger] enc_i32v(v)).len() == 4 by {
        lemma_bytes_be_len(v + 0x80000000, 4);
    }
    assert forall|c: char| (#[trigger] enc_char(c)).len() == 4 by {
        lemma_bytes_be_len(c as u32 as int, 4);
    }
    assert forall|w: u64| (#[trigger] enc_u64v(w)).len() == 8 by {
        lemma_bytes_be_len(w as int, 8);
    }
}


/// Tag of a `Slot` variant.
pub open spec fn tag_slot(v: Slot) -> u8 {
    match v {
        Slot::LeftHand => 0,
        Slot::RightHand => 1,
        Slot::Head => 2,
    }
}

pub open spec fn enc_slot(v: Slot) -> Seq<u8> {
    enc_u8v(tag_slot(v))
}

pub proof fn lemma_enc_slot_len(v: Slot)
    ensures
        enc_slot(v).len() == 1,
{
    lemma_bytes_be_len(tag_slot(v) as int, 1);
}

fn put_slot(out: &mut Vec<u8>, v: Slot)
    ensures
        final(out)@ == old(out)@ + enc_slot(v),
{
    let tag: u8 = match v {
        Slot::LeftHand => 0u8,
        Slot::RightHand => 1u8,
        Slot::Head => 2u8,
    };
    put_u8(out, tag);
}

fn take_slot(buf: &Vec<u8>, pos: usize, Ghost(g): Ghost<Option<Slot>>) -> (r: Option<
    (Slot, usize),
>)
    requires
        g matches Some(v) ==> enc_at(buf@, pos as int, enc_slot(v)),
    ensures
        g matches Some(v) ==> r == Some((v, (pos + 1) as usize)),
{
    let ghost gt = match g {
        Some(v) => Some(tag_slot(v)),
        None => None::<u8>,
    };
    match take_u8(buf, pos, Ghost(gt)) {
        Some((tag, p)) => {
            match tag {
                0 => Some((Slot::LeftHand, p)),
                1 => Some((Slot::RightHand, p)),
                2 => Some((Slot::Head, p)),
                _ => {
                    proof {
                        if g is Some {
                            assert(false);
                        }
                    }
                    None
                },
            }
        },
        None => None,
    }
}


/// Tag of a `Item` variant.
pub open spec fn tag_item(v: Item) -> u8 {
    match v {
        Item::Heal => 0,
        Item::Lightning => 1,
        Item::Confuse => 2,
        Item::Fireball => 3,
        Item::Sword => 4,
        Item::Shield => 5,
        Item::Helmet => 6,
    }
}

pub open spec fn enc_item(v: Item) -> Seq<u8> {
    enc_u8v(tag_item(v))
}

pub proof fn lemma_enc_item_len(v: Item)
    ensures
        enc_item(v).len() == 1,
{
    lemma_bytes_be_len(tag_item(v) as int, 1);
}

fn put_item(out: &mut Vec<u8>, v: Item)
    ensures
        final(out)@ == old(out)@ + enc_item(v),
{
    let tag: u8 = match v {
        Item::Heal => 0u8,
        Item::Lightning => 1u8,
        Item::Confuse => 2u8,
        Item::Fireball => 3u8,
        Item::Sword => 4u8,
        Item::Shield => 5u8,
        Item::Helmet => 6u8,
    };
    put_u8(out, tag);
}

fn take_item(buf: &Vec<u8>, pos: usize, Ghost(g): Ghost<Option<Item>>) -> (r: Option<
    (Item, usize),
>)
    requires
        g matches Some(v) ==> enc_at(buf@, pos as int, enc_item(v)),
    ensures
        g matches Some(v) ==> r == Some((v, (pos + 1) as usize)),
{
    let ghost gt = match g {
        Some(v) => Some(tag_item(v)),
        None => None::<u8>,
    };
    match take_u8(buf, pos, Ghost(gt)) {
        Some((tag, p)) => {
            match tag {
                0 => Some((Item::Heal, p)),
                1 => Some((Item::Lightning, p)),
                2 => Some((Item::Confuse, p)),
                3 => Some((Item::Fireball, p)),
                4 => Some((Item::Sword, p)),
                5 => Some((Item::Shield, p)),
                6 => Some((Item::Helmet, p)),
                _ => {
                    proof {
                        if g is Some {
                            assert(false);
                        }
                    }
                    None
                },
            }
        },
        None => None,
    }
}


/// Tag of a `DeathCallback` variant.
pub open spec fn tag_dcb(v: DeathCallback) -> u8 {
    match v {
        DeathCallback::Player => 0,
        DeathCallback::Monster => 1,
    }
}

pub open spec fn enc_dcb(v: DeathCallback) -> Seq<u8> {
    enc_u8v(tag_dcb(v))
}

pub proof fn lemma_enc_dcb_len(v: DeathCallback)
    ensures
        enc_dcb(v).len() == 1,
{
    lemma_bytes_be_len(tag_dcb(v) as int, 1);
}

fn put_dcb(out: &mut Vec<u8>, v: DeathCallback)
    ensures
        final(out)@ == old(out)@ + enc_dcb(v),
{
    let tag: u8 = match v {
        DeathCallback::Player => 0u8,
        DeathCallback::Monster => 1u8,
    };
    put_u8(out, tag);
}

fn take_dcb(buf: &Vec<u8>, pos: usize, Ghost(g): Ghost<Option<DeathCallback>>) -> (r: Option<
    (DeathCallback, usize),
>)
    requires
        g matches Some(v) ==> enc_at(buf@, pos as int, enc_dcb(v)),
    ensures
        g matches Some(v) ==> r == Some((v, (pos + 1) as usize)),
{
    let ghost gt = match g {
        Some(v) => Some(tag_dcb(v)),
        None => None::<u8>,
    };
    match take_u8(buf, pos, Ghost(gt)) {
        Some((tag, p)) => {
            match tag {
                0 => Some((DeathCallback::Player, p)),
                1 => Some((DeathCallback::Monster, p)),
                _ => {
                    proof {
                        if g is Some {
                            assert(false);
                        }
                    }
                    None
                },
            }
        },
        None => None,
    }
}


/// A color: three bytes.
pub open spec fn enc_color(v: Color) -> Seq<u8> {
    enc_u8v(v.r) + (enc_u8v(v.g) + (enc_u8v(v.b)))
}

pub proof fn lemma_field_lens_color(v: Color)
    ensures
        enc_color(v).len() == 3,
{
    lemma_scalar_enc_lens();
    lemma_scalar_enc_lens();
}

pub proof fn lemma_enc_color_len(v: Color)
    ensures
        enc_color(v).len() == 3,
{
    lemma_field_lens_color(v);
}

fn put_color(out: &mut Vec<u8>, v: Color)
    ensures
        final(out)@ == old(out)@ + enc_color(v),
{
    put_u8(out, v.r);
    put_u8(out, v.g);
    put_u8(out, v.b);
    proof {
        assert(out@ =~= old(out)@ + enc_color(v));
    }
}

fn take_color(buf: &Vec<u8>, pos: usize, Ghost(g): Ghost<Option<Color>>) -> (r: Option<
    (Color, usize),
>)
    requires
        g matches Some(v) ==> enc_at(buf@, pos as int, enc_color(v)),
    ensures
        g matches Some(v) ==> r == Some((v, (pos + 3) as usize)),
{
    let buf_len = buf.len();
    proof {
        match g {
            Some(v) => {
                lemma_enc_color_len(v);
            },
            None => {},
        }
    }
    proof {
        match g {
            Some(v) => {
                lemma_scalar_enc_lens();
                lemma_field_lens_color(v);
                lemma_enc_at_split(buf@, pos as int, enc_u8v(v.r), enc_u8v(v.g) + (enc_u8v(v.b)));
            },
            None => {},
        }
    }
    let (f_r, p0) = match take_u8(buf, pos, Ghost(
        match g {
            Some(v) => Some(v.r),
            None => None,
        },
    )) {
        Some(x) => x,
        None => {
            return None;
        },
    };
    proof {
        match g {
            Some(v) => {
                lemma_scalar_enc_lens();
                lemma_field_lens_color(v);
                lemma_enc_at_split(buf@, p0 as int, enc_u8v(v.g), enc_u8v(v.b));
            },
            None => {},
        }
    }
    let (f_g, p1) = match take_u8(buf, p0, Ghost(
        match g {
            Some(v) => Some(v.g),
            None => None,
        },
    )) {
        Some(x) => x,
        None => {
            return None;
        },
    };
    let (f_b, p2) = match take_u8(buf, p1, Ghost(
        match g {
            Some(v) => Some(v.b),
            None => None,
        },
    )) {
        Some(x) => x,
        None => {
            return None;
        },
    };
    Some((Color { r: f_r, g: f_g, b: f_b }, p2))
}


/// A tile: three flags.
pub open spec fn enc_tile(v: Tile) -> Seq<u8> {
    enc_bool(v.blocked) + (enc_bool(v.block_sight) + (enc_bool(v.explored)))
}

pub proof fn lemma_field_lens_tile(v: Tile)
    ensures
        enc_tile(v).len() == 3,
{
    lemma_scalar_enc_lens();
    lemma_scalar_enc_lens();
}

pub proof fn lemma_enc_tile_len(v: Tile)
    ensures
        enc_tile(v).len() == 3,
{
    lemma_field_lens_tile(v);
}

fn put_tile(out: &mut Vec<u8>, v: Tile)
    ensures
        final(out)@ == old(out)@ + enc_tile(v),
{
    put_bool(out, v.blocked);
    put_bool(out, v.block_sight);
    put_bool(out, v.explored);
    proof {
        assert(out@ =~= old(out)@ + enc_tile(v));
    }
}

fn take_tile(buf: &Vec<u8>, pos: usize, Ghost(g): Ghost<Option<Tile>>) -> (r: Option<
    (Tile, usize),
>)
    requires
        g matches Some(v) ==> enc_at(buf@, pos as int, enc_tile(v)),
    ensures
        g matches Some(v) ==> r == Some((v, (pos + 3) as usize)),
{
    let buf_len = buf.len();
    proof {
        match g {
            Some(v) => {
                lemma_enc_tile_len(v);
            },
            None => {},
        }
    }
    proof {
        match g {
            Some(v) => {
                lemma_scalar_enc_lens();
                lemma_field_lens_tile(v);
                lemma_enc_at_split(buf@, pos as int, enc_bool(v.blocked), enc_bool(v.block_sight) + (enc_bool(v.explored)));
            },
            None => {},
        }
    }
    let (f_blocked, p0) = match take_bool(buf, pos, Ghost(
        match g {
            Some(v) => Some(v.blocked),
            None => None,
        },
    )) {
        Some(x) => x,
        None => {
            return None;
        },
    };
    proof {
        match g {
            Some(v) => {
                lemma_scalar_enc_lens();
                lemma_field_lens_tile(v);
                lemma_enc_at_split(buf@, p0 as int, enc_bool(v.block_sight), enc_bool(v.explored));
            },
            None => {},
        }
    }
    let (f_block_sight, p1) = match take_bool(buf, p0, Ghost(
        match g {
            Some(v) => Some(v.block_sight),
            None => None,
        },
    )) {
        Some(x) => x,
        None => {
            return None;
        },
    };
    let (f_explored, p2) = match take_bool(buf, p1, Ghost(
        match g {
            Some(v) => Some(v.explored),
            None => None,
        },
    )) {
        Some(x) => x,
        None => {
            return None;
        },
    };
    Some((Tile { blocked: f_blocked, block_sight: f_block_sight, explored: f_explored }, p2))
}


/// An equipment facet.
pub open spec fn enc_equipment(v: Equipment) -> Seq<u8> {
    enc_slot(v.slot) + (enc_bool(v.equipped) + (enc_i32v(v.max_hp_bonus) + (enc_i32v(v.power_bonus) + (enc_i32v(v.defense_bonus)))))
}

pub proof fn lemma_field_lens_equipment(v: Equipment)
    ensures
        enc_equipment(v).len() == 14,
{
    lemma_scalar_enc_lens();
    lemma_enc_slot_len(v.slot);
}

pub proof fn lemma_enc_equipment_len(v: Equipment)
    ensures
        enc_equipment(v).len() == 14,
{
    lemma_field_lens_equipment(v);
}

fn put_equipment(out: &mut Vec<u8>, v: Equipment)
    ensures
        final(out)@ == old(out)@ + enc_equipment(v),
{
    put_slot(out, v.slot);
    put_bool(out, v.equipped);
    put_i32(out, v.max_hp_bonus);
    put_i32(out, v.power_bonus);
    put_i32(out, v.defense_bonus);
    proof {
        assert(out@ =~= old(out)@ + enc_equipment(v));
    }
}

fn take_equipment(buf: &Vec<u8>, pos: usize, Ghost(g): Ghost<Option<Equipment>>) -> (r: Option<
    (Equipment, usize),
>)
    requires
        g matches Some(v) ==> enc_at(buf@, pos as int, enc_equipment(v)),
    ensures
        g matches Some(v) ==> r == Some((v, (pos + 14) as usize)),
{
    let buf_len = buf.len();
    proof {
        match g {
            Some(v) => {
                lemma_enc_equipment_len(v);
            },
            None => {},
        }
    }
    proof {
        match g {
            Some(v) => {
                lemma_scalar_enc_lens();
                lemma_field_lens_equipment(v);
                lemma_enc_at_split(buf@, pos as int, enc_slot(v.slot), enc_bool(v.equipped) + (enc_i32v(v.max_hp_bonus) + (enc_i32v(v.power_bonus) + (enc_i32v(v.defense_bonus)))));
            },
            None => {},
        }
    }
    let (f_slot, p0) = match take_slot(buf, pos, Ghost(
        match g {
            Some(v) => Some(v.slot),
            None => None,
        },
    )) {
        Some(x) => x,
        None => {
            return None;
        },
    };
    proof {
        match g {
            Some(v) => {
                lemma_scalar_enc_lens();
                lemma_field_lens_equipment(v);
                lemma_enc_at_split(buf@, p0 as int, enc_bool(v.equipped), enc_i32v(v.max_hp_bonus) + (enc_i32v(v.power_bonus) + (enc_i32v(v.defense_bonus))));
            },
            None => {},
        }
    }
    let (f_equipped, p1) = match take_bool(buf, p0, Ghost(
        match g {
            Some(v) => Some(v.equipped),
            None => None,
        },
    )) {
        Some(x) => x,
        None => {
            return None;
        },
    };
    proof {
        match g {
            Some(v) => {
                lemma_scalar_enc_lens();
                lemma_field_lens_equipment(v);
                lemma_enc_at_split(buf@, p1 as int, enc_i32v(v.max_hp_bonus), enc_i32v(v.power_bonus) + (enc_i32v(v.defense_bonus)));
            },
            None => {},
        }
    }
    let (f_max_hp_bonus, p2) = match take_i32(buf, p1, Ghost(
        match g {
            Some(v) => Some(v.max_hp_bonus),
            None => None,
        },
    )) {
        Some(x) => x,
        None => {
            return None;
        },
    };
    proof {
        match g {
            Some(v) => {
                lemma_scalar_enc_lens();
                lemma_field_lens_equipment(v);
                lemma_enc_at_split(buf@, p2 as int, enc_i32v(v.power_bonus), enc_i32v(v.defense_bonus));
            },
            None => {},
        }
    }
    let (f_power_bonus, p3) = match take_i32(buf, p2, Ghost(
        match g {
            Some(v) => Some(v.power_bonus),
            None => None,
        },
    )) {
        Some(x) => x,
        None => {
            return None;
        },
    };
    let (f_defense_bonus, p4) = match take_i32(buf, p3, Ghost(
        match g {
            Some(v) => Some(v.defense_bonus),
            None => None,
        },
    )) {
        Some(x) => x,
        None => {
            return None;
        },
    };
    Some((Equipment { slot: f_slot, equipped: f_equipped, max_hp_bonus: f_max_hp_bonus, power_bonus: f_power_bonus, defense_bonus: f_defense_bonus }, p4))
}


/// A fighter facet.
pub open spec fn enc_fighter(v: Fighter) -> Seq<u8> {
    enc_i32v(v.base_max_hp) + (enc_i32v(v.hp) + (enc_i32v(v.base_defense) + (enc_i32v(v.base_power) + (enc_u32v(v.xp) + (enc_dcb(v.on_death))))))
}

pub proof fn lemma_field_lens_fighter(v: Fighter)
    ensures
        enc_fighter(v).len() == 21,
{
    lemma_scalar_enc_lens();
    lemma_enc_dcb_len(v.on_death);
}

pub proof fn lemma_enc_fighter_len(v: Fighter)
    ensures
        enc_fighter(v).len() == 21,
{
    lemma_field_lens_fighter(v);
}

fn put_fighter(out: &mut Vec<u8>, v: Fighter)
    ensures
        final(out)@ == old(out)@ + enc_fighter(v),
{
    put_i32(out, v.base_max_hp);
    put_i32(out, v.hp);
    put_i32(out, v.base_defense);
    put_i32(out, v.base_power);
    put_u32(out, v.xp);
    put_dcb(out, v.on_death);
    proof {
        assert(out@ =~= old(out)@ + enc_fighter(v));
    }
}

fn take_fighter(buf: &Vec<u8>, pos: usize, Ghost(g): Ghost<Option<Fighter>>) -> (r: Option<
    (Fighter, usize),
>)
    requires
        g matches Some(v) ==> enc_at(buf@, pos as int, enc_fighter(v)),
    ensures
        g matches Some(v) ==> r == Some((v, (pos + 21) as usize)),
{
    let buf_len = buf.len();
    proof {
        match g {
            Some(v) => {
                lemma_enc_fighter_len(v);
            },
            None => {},
        }
    }
    proof {
        match g {
            Some(v) => {
                lemma_scalar_enc_lens();
                lemma_field_lens_fighter(v);
                lemma_enc_at_split(buf@, pos as int, enc_i32v(v.base_max_hp), enc_i32v(v.hp) + (enc_i32v(v.base_defense) + (enc_i32v(v.base_power) + (enc_u32v(v.xp) + (enc_dcb(v.on_death))))));
            },
            None => {},
        }
    }
    let (f_base_max_hp, p0) = match take_i32(buf, pos, Ghost(
        match g {
            Some(v) => Some(v.base_max_hp),
            None => None,
        },
    )) {
        Some(x) => x,
        None => {
            return None;
        },
    };
    proof {
        match g {
            Some(v) => {
                lemma_scalar_enc_lens();
                lemma_field_lens_fighter(v);
                lemma_enc_at_split(buf@, p0 as int, enc_i32v(v.hp), enc_i32v(v.base_defense) + (enc_i32v(v.base_power) + (enc_u32v(v.xp) + (enc_dcb(v.on_death)))));
            },
            None => {},
        }
    }
    let (f_hp, p1) = match take_i32(buf, p0, Ghost(
        match g {
            Some(v) => Some(v.hp),
            None => None,
        },
    )) {
        Some(x) => x,
        None => {
            return None;
        },
    };
    proof {
        match g {
            Some(v) => {
                lemma_scalar_enc_lens();
                lemma_field_lens_fighter(v);
                lemma_enc_at_split(buf@, p1 as int, enc_i32v(v.base_defense), enc_i32v(v.base_power) + (enc_u32v(v.xp) + (enc_dcb(v.on_death))));
            },
            None => {},
        }
    }
    let (f_base_defense, p2) = match take_i32(buf, p1, Ghost(
        match g {
            Some(v) => Some(v.base_defense),
            None => None,
        },
    )) {
        Some(x) => x,
        None => {
            return None;
        },
    };
    proof {
        match g {
            Some(v) => {
                lemma_scalar_enc_lens();
                lemma_field_lens_fighter(v);
                lemma_enc_at_split(buf@, p2 as int, enc_i32v(v.base_power), enc_u32v(v.xp) + (enc_dcb(v.on_death)));
            },
            None => {},
        }
    }
    let (f_base_power, p3) = match take_i32(buf, p2, Ghost(
        match g {
            Some(v) => Some(v.base_power),
            None => None,
        },
    )) {
        Some(x) => x,
        None => {
            return None;
        },
    };
    proof {
        match g {
            Some(v) => {
                lemma_scalar_enc_lens();
                lemma_field_lens_fighter(v);
                lemma_enc_at_split(buf@, p3 as int, enc_u32v(v.xp), enc_dcb(v.on_death));
            },
            None => {},
        }
    }
    let (f_xp, p4) = match take_u32(buf, p3, Ghost(
        match g {
            Some(v) => Some(v.xp),
            None => None,
        },
    )) {
        Some(x) => x,
        None => {
            return None;
        },
    };
    let (f_on_death, p5) = match take_dcb(buf, p4, Ghost(
        match g {
            Some(v) => Some(v.on_death),
            None => None,
        },
    )) {
        Some(x) => x,
        None => {
            return None;
        },
    };
    Some((Fighter { base_max_hp: f_base_max_hp, hp: f_hp, base_defense: f_base_defense, base_power: f_base_power, xp: f_xp, on_death: f_on_death }, p5))
}


/// Optional facets: a presence byte, then the payload.
pub open spec fn enc_opt_fighter(o: Option<Fighter>) -> Seq<u8> {
    match o {
        None => enc_u8v(0),
        Some(v) => enc_u8v(1) + enc_fighter(v),
    }
}

pub open spec fn enc_opt_item(o: Option<Item>) -> Seq<u8> {
    match o {
        None => enc_u8v(0),
        Some(v) => enc_u8v(1) + enc_item(v),
    }
}

pub open spec fn enc_opt_equipment(o: Option<Equipment>) -> Seq<u8> {
    match o {
        None => enc_u8v(0),
        Some(v) => enc_u8v(1) + enc_equipment(v),
    }
}

/// A behaviour: the confusion variant carries the wrapped behaviour and
/// the remaining turns.
pub open spec fn enc_ai(a: Ai) -> Seq<u8>
    decreases a,
{
    match a {
        Ai::Basic => enc_u8v(0),
        Ai::Confused { previous_ai, num_turns } => enc_u8v(1) + (enc_ai(*previous_ai) + enc_i32v(
            num_turns,
        )),
    }
}

pub open spec fn enc_opt_ai(o: Option<Ai>) -> Seq<u8> {
    match o {
        None => enc_u8v(0),
        Some(a) => enc_u8v(1) + enc_ai(a),
    }
}

fn put_opt_fighter(out: &mut Vec<u8>, o: &Option<Fighter>)
    ensures
        final(out)@ == old(out)@ + enc_opt_fighter(*o),
{
    match o {
        None => put_u8(out, 0),
        Some(v) => {
            put_u8(out, 1);
            put_fighter(out, *v);
            proof {
                assert(out@ =~= old(out)@ + enc_opt_fighter(*o));
            }
        },
    }
}

fn put_opt_item(out: &mut Vec<u8>, o: &Option<Item>)
    ensures
        final(out)@ == old(out)@ + enc_opt_item(*o),
{
    match o {
        None => put_u8(out, 0),
        Some(v) => {
            put_u8(out, 1);
            put_item(out, *v);
            proof {
                assert(out@ =~= old(out)@ + enc_opt_item(*o));
            }
        },
    }
}

fn put_opt_equipment(out: &mut Vec<u8>, o: &Option<Equipment>)
    ensures
        final(out)@ == old(out)@ + enc_opt_equipment(*o),
{
    match o {
        None => put_u8(out, 0),
        Some(v) => {
            put_u8(out, 1);
            put_equipment(out, *v);
            proof {
                assert(out@ =~= old(out)@ + enc_opt_equipment(*o));
            }
        },
    }
}

fn put_ai(out: &mut Vec<u8>, a: &Ai)
    ensures
        final(out)@ == old(out)@ + enc_ai(*a),
    decreases *a,
{
    match a {
        Ai::Basic => put_u8(out, 0),
        Ai::Confused { previous_ai, num_turns } => {
            put_u8(out, 1);
            put_ai(out, &**previous_ai);
            put_i32(out, *num_turns);
            proof {
                assert(out@ =~= old(out)@ + enc_ai(*a));
            }
        },
    }
}

fn put_opt_ai(out: &mut Vec<u8>, o: &Option<Ai>)
    ensures
        final(out)@ == old(out)@ + enc_opt_ai(*o),
{
    match o {
        None => put_u8(out, 0),
        Some(a) => {
            put_u8(out, 1);
            put_ai(out, a);
            proof {
                assert(out@ =~= old(out)@ + enc_opt_ai(*o));
            }
        },
    }
}

fn take_opt_fighter(buf: &Vec<u8>, pos: usize, Ghost(g): Ghost<Option<Option<Fighter>>>) -> (r:
    Option<(Option<Fighter>, usize)>)
    requires
        g matches Some(o) ==> enc_at(buf@, pos as int, enc_opt_fighter(o)),
    ensures
        g matches Some(o) ==> r == Some((o, (pos + enc_opt_fighter(o).len()) as usize)),
{
    let buf_len = buf.len();
    proof {
        lemma_scalar_enc_lens();
    }
    let ghost gt = match g {
        Some(o) => Some(
            (if o is Some {
                1u8
            } else {
                0u8
            }),
        ),
        None => None::<u8>,
    };
    proof {
        match g {
            Some(o) => match o {
                Some(v) => {
                    lemma_enc_at_split(buf@, pos as int, enc_u8v(1), enc_fighter(v));
                    lemma_scalar_enc_lens();
                },
                None => {},
            },
            None => {},
        }
    }
    let (tag, p1) = match take_u8(buf, pos, Ghost(gt)) {
        Some(x) => x,
        None => {
            return None;
        },
    };
    match tag {
        0 => Some((None, p1)),
        1 => {
            let ghost gf = match g {
                Some(o) => match o {
                    Some(v) => Some(v),
                    None => None::<Fighter>,
                },
                None => None::<Fighter>,
            };
            proof {
                match g {
                    Some(o) => {
                        lemma_enc_fighter_len(o->0);
                        lemma_scalar_enc_lens();
                    },
                    None => {},
                }
            }
            match take_fighter(buf, p1, Ghost(gf)) {
                Some((v, p2)) => Some((Some(v), p2)),
                None => None,
            }
        },
        _ => {
            proof {
                if g is Some {
                    assert(false);
                }
            }
            None
        },
    }
}


fn take_opt_item(buf: &Vec<u8>, pos: usize, Ghost(g): Ghost<Option<Option<Item>>>) -> (r: Option<
    (Option<Item>, usize),
>)
    requires
        g matches Some(o) ==> enc_at(buf@, pos as int, enc_opt_item(o)),
    ensures
        g matches Some(o) ==> r == Some((o, (pos + enc_opt_item(o).len()) as usize)),
{
    let buf_len = buf.len();
    proof {
        lemma_scalar_enc_lens();
    }
    let ghost gt = match g {
        Some(o) => Some(
            (if o is Some {
                1u8
            } else {
                0u8
            }),
        ),
        None => None::<u8>,
    };
    proof {
        match g {
            Some(o) => match o {
                Some(v) => {
                    lemma_enc_at_split(buf@, pos as int, enc_u8v(1), enc_item(v));
                },
                None => {},
            },
            None => {},
        }
    }
    let (tag, p1) = match take_u8(buf, pos, Ghost(gt)) {
        Some(x) => x,
        None => {
            return None;
        },
    };
    match tag {
        0 => Some((None, p1)),
        1 => {
            let ghost gf = match g {
                Some(o) => match o {
                    Some(v) => Some(v),
                    None => None::<Item>,
                },
                None => None::<Item>,
            };
            proof {
                match g {
                    Some(o) => {
                        lemma_enc_item_len(o->0);
                    },
                    None => {},
                }
            }
            match take_item(buf, p1, Ghost(gf)) {
                Some((v, p2)) => Some((Some(v), p2)),
                None => None,
            }
        },
        _ => {
            proof {
                if g is Some {
                    assert(false);
                }
            }
            None
        },
    }
}

fn take_opt_equipment(buf: &Vec<u8>, pos: usize, Ghost(g): Ghost<Option<Option<Equipment>>>) -> (r: Option<
    (Option<Equipment>, usize),
>)
    requires
        g matches Some(o) ==> enc_at(buf@, pos as int, enc_opt_equipment(o)),
    ensures
        g matches Some(o) ==> r == Some((o, (pos + enc_opt_equipment(o).len()) as usize)),
{
    let buf_len = buf.len();
    proof {
        lemma_scalar_enc_lens();
    }
    let ghost gt = match g {
        Some(o) => Some(
            (if o is Some {
                1u8
            } else {
                0u8
            }),
        ),
        None => None::<u8>,
    };
    proof {
        match g {
            Some(o) => match o {
                Some(v) => {
                    lemma_enc_at_split(buf@, pos as int, enc_u8v(1), enc_equipment(v));
                },
                None => {},
            },
            None => {},
        }
    }
    let (tag, p1) = match take_u8(buf, pos, Ghost(gt)) {
        Some(x) => x,
        None => {
            return None;
        },
    };
    match tag {
        0 => Some((None, p1)),
        1 => {
            let ghost gf = match g {
                Some(o) => match o {
                    Some(v) => Some(v),
                    None => None::<Equipment>,
                },
                None => None::<Equipment>,
            };
            proof {
                match g {
                    Some(o) => {
                        lemma_enc_equipment_len(o->0);
                    },
                    None => {},
                }
            }
            match take_equipment(buf, p1, Ghost(gf)) {
                Some((v, p2)) => Some((Some(v), p2)),
                None => None,
            }
        },
        _ => {
            proof {
                if g is Some {
                    assert(false);
                }
            }
            None
        },
    }
}

/// Decode a behaviour; the confusion variant recurses on the wrapped
/// behaviour, each step past the one-byte tag.
fn take_ai(buf: &Vec<u8>, pos: usize, Ghost(g): Ghost<Option<Ai>>) -> (r: Option<(Ai, usize)>)
    requires
        g matches Some(a) ==> enc_at(buf@, pos as int, enc_ai(a)),
    ensures
        g matches Some(a) ==> (r matches Some(x) && x.0 == a && x.1 == pos + enc_ai(a).len()),
        r matches Some(x) ==> x.1 <= buf@.len(),
    decreases buf@.len() - pos,
{
    let buf_len = buf.len();
    proof {
        lemma_scalar_enc_lens();
    }
    let ghost gt = match g {
        Some(a) => Some(
            (match a {
                Ai::Basic => 0u8,
                Ai::Confused { .. } => 1u8,
            }),
        ),
        None => None::<u8>,
    };
    proof {
        match g {
            Some(a) => match a {
                Ai::Basic => {},
                Ai::Confused { previous_ai, num_turns } => {
                    lemma_enc_at_split(
                        buf@,
                        pos as int,
                        enc_u8v(1),
                        enc_ai(*previous_ai) + enc_i32v(num_turns),
                    );
                },
            },
            None => {},
        }
    }
    let (tag, p1) = match take_u8(buf, pos, Ghost(gt)) {
        Some(x) => x,
        None => {
            return None;
        },
    };
    match tag {
        0 => Some((Ai::Basic, p1)),
        1 => {
            let ghost gprev = match g {
                Some(a) => match a {
                    Ai::Confused { previous_ai, .. } => Some(*previous_ai),
                    _ => None::<Ai>,
                },
                None => None::<Ai>,
            };
            proof {
                match g {
                    Some(a) => match a {
                        Ai::Confused { previous_ai, num_turns } => {
                            lemma_enc_at_split(
                                buf@,
                                p1 as int,
                                enc_ai(*previous_ai),
                                enc_i32v(num_turns),
                            );
                        },
                        _ => {},
                    },
                    None => {},
                }
            }
            let (prev, p2) = match take_ai(buf, p1, Ghost(gprev)) {
                Some(x) => x,
                None => {
                    return None;
                },
            };
            let ghost gn = match g {
                Some(a) => match a {
                    Ai::Confused { num_turns, .. } => Some(num_turns),
                    _ => None::<i32>,
                },
                None => None::<i32>,
            };
            let (n, p3) = match take_i32(buf, p2, Ghost(gn)) {
                Some(x) => x,
                None => {
                    return None;
                },
            };
            Some((Ai::Confused { previous_ai: Box::new(prev), num_turns: n }, p3))
        },
        _ => {
            proof {
                if g is Some {
                    assert(false);
                }
            }
            None
        },
    }
}

fn take_opt_ai(buf: &Vec<u8>, pos: usize, Ghost(g): Ghost<Option<Option<Ai>>>) -> (r: Option<
    (Option<Ai>, usize),
>)
    requires
        g matches Some(o) ==> enc_at(buf@, pos as int, enc_opt_ai(o)),
    ensures
        g matches Some(o) ==> (r matches Some(x) && x.0 == o && x.1 == pos + enc_opt_ai(o).len()),
{
    let buf_len = buf.len();
    proof {
        lemma_scalar_enc_lens();
    }
    let ghost gt = match g {
        Some(o) => Some(
            (if o is Some {
                1u8
            } else {
                0u8
            }),
        ),
        None => None::<u8>,
    };
    proof {
        match g {
            Some(o) => match o {
                Some(a) => {
                    lemma_enc_at_split(buf@, pos as int, enc_u8v(1), enc_ai(a));
                },
                None => {},
            },
            None => {},
        }
    }
    let (tag, p1) = match take_u8(buf, pos, Ghost(gt)) {
        Some(x) => x,
        None => {
            return None;
        },
    };
    match tag {
        0 => Some((None, p1)),
        1 => {
            let ghost ga = match g {
                Some(o) => match o {
                    Some(a) => Some(a),
                    None => None::<Ai>,
                },
                None => None::<Ai>,
            };
            match take_ai(buf, p1, Ghost(ga)) {
                Some((a, p2)) => Some((Some(a), p2)),
                None => None,
            }
        },
        _ => {
            proof {
                if g is Some {
                    assert(false);
                }
            }
            None
        },
    }
}


/// Field-for-field equality of game objects, the name compared by its
/// characters.
pub open spec fn obj_eq(a: DisplayObj, b: DisplayObj) -> bool {
    &&& a.x == b.x
    &&& a.y == b.y
    &&& a.glyph == b.glyph
    &&& a.color == b.color
    &&& a.name@ == b.name@
    &&& a.blocks == b.blocks
    &&& a.alive == b.alive
    &&& a.always_visible == b.always_visible
    &&& a.fighter == b.fighter
    &&& a.ai == b.ai
    &&& a.item == b.item
    &&& a.level == b.level
    &&& a.equipment == b.equipment
}

/// The trailing facets of a game object.
pub open spec fn enc_obj_tail(v: DisplayObj) -> Seq<u8> {
    enc_opt_fighter(v.fighter) + (enc_opt_ai(v.ai) + (enc_opt_item(v.item) + (enc_u32v(v.level)
        + (enc_opt_equipment(v.equipment)))))
}

/// Name and flags, then the facets.
pub open spec fn enc_obj_mid(v: DisplayObj) -> Seq<u8> {
    enc_str(v.name@) + (enc_bool(v.blocks) + (enc_bool(v.alive) + (enc_bool(v.always_visible)
        + enc_obj_tail(v))))
}

/// A game object, field by field.
pub open spec fn enc_obj(v: DisplayObj) -> Seq<u8> {
    enc_i32v(v.x) + (enc_i32v(v.y) + (enc_char(v.glyph) + (enc_color(v.color) + enc_obj_mid(v))))
}

#[verifier::rlimit(100)]
fn put_obj_tail(out: &mut Vec<u8>, o: &DisplayObj)
    ensures
        final(out)@ == old(out)@ + enc_obj_tail(*o),
{
    put_opt_fighter(out, &o.fighter);
    put_opt_ai(out, &o.ai);
    put_opt_item(out, &o.item);
    put_u32(out, o.level);
    put_opt_equipment(out, &o.equipment);
    proof {
        assert(out@ =~= old(out)@ + enc_obj_tail(*o));
    }
}

#[verifier::rlimit(100)]
fn put_obj_mid(out: &mut Vec<u8>, o: &DisplayObj)
    ensures
        final(out)@ == old(out)@ + enc_obj_mid(*o),
{
    encode_str(out, &o.name);
    put_bool(out, o.blocks);
    put_bool(out, o.alive);
    put_bool(out, o.always_visible);
    put_obj_tail(out, o);
    proof {
        assert(out@ =~= old(out)@ + enc_obj_mid(*o));
    }
}

#[verifier::rlimit(100)]
fn put_obj(out: &mut Vec<u8>, o: &DisplayObj)
    ensures
        final(out)@ == old(out)@ + enc_obj(*o),
{
    put_i32(out, o.x);
    put_i32(out, o.y);
    put_char(out, o.glyph);
    put_color(out, o.color);
    put_obj_mid(out, o);
    proof {
        assert(out@ =~= old(out)@ + enc_obj(*o));
    }
}

fn take_obj(buf: &Vec<u8>, pos: usize, Ghost(g): Ghost<Option<DisplayObj>>) -> (r: Option<
    (DisplayObj, usize),
>)
    requires
        g matches Some(v) ==> enc_at(buf@, pos as int, enc_obj(v)),
    ensures
        g matches Some(v) ==> (r matches Some(x) && obj_eq(x.0, v) && x.1 == pos + enc_obj(
            v,
        ).len()),
{
    let buf_len = buf.len();
    proof {
        lemma_scalar_enc_lens();
    }
    proof {
        match g {
            Some(v) => {
                lemma_enc_at_split(buf@, pos as int, enc_i32v(v.x), enc_i32v(v.y) + (enc_char(v.glyph) + (enc_color(v.color) + (enc_str(v.name@) + (enc_bool(v.blocks) + (enc_bool(v.alive) + (enc_bool(v.always_visible) + (enc_opt_fighter(v.fighter) + (enc_opt_ai(v.ai) + (enc_opt_item(v.item) + (enc_u32v(v.level) + (enc_opt_equipment(v.equipment)))))))))))));
            },
            None => {},
        }
    }
    let (f_x, p0) = match take_i32(buf, pos, Ghost(
        match g {
            Some(v) => Some(v.x),
            None => None,
        },
    )) {
        Some(x) => x,
        None => {
            return None;
        },
    };
    proof {
        match g {
            Some(v) => {
                lemma_enc_at_split(buf@, p0 as int, enc_i32v(v.y), enc_char(v.glyph) + (enc_color(v.color) + (enc_str(v.name@) + (enc_bool(v.blocks) + (enc_bool(v.alive) + (enc_bool(v.always_visible) + (enc_opt_fighter(v.fighter) + (enc_opt_ai(v.ai) + (enc_opt_item(v.item) + (enc_u32v(v.level) + (enc_opt_equipment(v.equipment))))))))))));
            },
            None => {},
        }
    }
    let (f_y, p1) = match take_i32(buf, p0, Ghost(
        match g {
            Some(v) => Some(v.y),
            None => None,
        },
    )) {
        Some(x) => x,
        None => {
            return None;
        },
    };
    proof {
        match g {
            Some(v) => {
                lemma_enc_at_split(buf@, p1 as int, enc_char(v.glyph), enc_color(v.color) + (enc_str(v.name@) + (enc_bool(v.blocks) + (enc_bool(v.alive) + (enc_bool(v.always_visible) + (enc_opt_fighter(v.fighter) + (enc_opt_ai(v.ai) + (enc_opt_item(v.item) + (enc_u32v(v.level) + (enc_opt_equipment(v.equipment)))))))))));
            },
            None => {},
        }
    }
    let (f_glyph, p2) = match take_char(buf, p1, Ghost(
        match g {
            Some(v) => Some(v.glyph),
            None => None,
        },
    )) {
        Some(x) => x,
        None => {
            return None;
        },
    };
    proof {
        match g {
            Some(v) => {
                lemma_enc_at_split(buf@, p2 as int, enc_color(v.color), enc_str(v.name@) + (enc_bool(v.blocks) + (enc_bool(v.alive) + (enc_bool(v.always_visible) + (enc_opt_fighter(v.fighter) + (enc_opt_ai(v.ai) + (enc_opt_item(v.item) + (enc_u32v(v.level) + (enc_opt_equipment(v.equipment))))))))));
            },
            None => {},
        }
    }
    let (f_color, p3) = match take_color(buf, p2, Ghost(
        match g {
            Some(v) => Some(v.color),
            None => None,
        },
    )) {
        Some(x) => x,
        None => {
            return None;
        },
    };
    proof {
        match g {
            Some(v) => {
                lemma_enc_at_split(buf@, p3 as int, enc_str(v.name@), enc_bool(v.blocks) + (enc_bool(v.alive) + (enc_bool(v.always_visible) + (enc_opt_fighter(v.fighter) + (enc_opt_ai(v.ai) + (enc_opt_item(v.item) + (enc_u32v(v.level) + (enc_opt_equipment(v.equipment)))))))));
                lemma_bytes_be_len(v.name@.len() as int, 8);
                lemma_enc_chars_len(v.name@, 0);
            },
            None => {},
        }
    }
    let (f_name, p4) = match decode_str(buf, p3, Ghost(
        match g {
            Some(v) => Some(v.name@),
            None => None,
        },
    )) {
        Some(x) => x,
        None => {
            return None;
        },
    };
    proof {
        match g {
            Some(v) => {
                lemma_enc_at_split(buf@, p4 as int, enc_bool(v.blocks), enc_bool(v.alive) + (enc_bool(v.always_visible) + (enc_opt_fighter(v.fighter) + (enc_opt_ai(v.ai) + (enc_opt_item(v.item) + (enc_u32v(v.level) + (enc_opt_equipment(v.equipment))))))));
            },
            None => {},
        }
    }
    let (f_blocks, p5) = match take_bool(buf, p4, Ghost(
        match g {
            Some(v) => Some(v.blocks),
            None => None,
        },
    )) {
        Some(x) => x,
        None => {
            return None;
        },
    };
    proof {
        match g {
            Some(v) => {
                lemma_enc_at_split(buf@, p5 as int, enc_bool(v.alive), enc_bool(v.always_visible) + (enc_opt_fighter(v.fighter) + (enc_opt_ai(v.ai) + (enc_opt_item(v.item) + (enc_u32v(v.level) + (enc_opt_equipment(v.equipment)))))));
            },
            None => {},
        }
    }
    let (f_alive, p6) = match take_bool(buf, p5, Ghost(
        match g {
            Some(v) => Some(v.alive),
            None => None,
        },
    )) {
        Some(x) => x,
        None => {
            return None;
        },
    };
    proof {
        match g {
            Some(v) => {
                lemma_enc_at_split(buf@, p6 as int, enc_bool(v.always_visible), enc_opt_fighter(v.fighter) + (enc_opt_ai(v.ai) + (enc_opt_item(v.item) + (enc_u32v(v.level) + (enc_opt_equipment(v.equipment))))));
            },
            None => {},
        }
    }
    let (f_always_visible, p7) = match take_bool(buf, p6, Ghost(
        match g {
            Some(v) => Some(v.always_visible),
            None => None,
        },
    )) {
        Some(x) => x,
        None => {
            return None;
        },
    };
    proof {
        match g {
            Some(v) => {
                lemma_enc_at_split(buf@, p7 as int, enc_opt_fighter(v.fighter), enc_opt_ai(v.ai) + (enc_opt_item(v.item) + (enc_u32v(v.level) + (enc_opt_equipment(v.equipment)))));
            },
            None => {},
        }
    }
    let (f_fighter, p8) = match take_opt_fighter(buf, p7, Ghost(
        match g {
            Some(v) => Some(v.fighter),
            None => None,
        },
    )) {
        Some(x) => x,
        None => {
            return None;
        },
    };
    proof {
        match g {
            Some(v) => {
                lemma_enc_at_split(buf@, p8 as int, enc_opt_ai(v.ai), enc_opt_item(v.item) + (enc_u32v(v.level) + (enc_opt_equipment(v.equipment))));
            },
            None => {},
        }
    }
    let (f_ai, p9) = match take_opt_ai(buf, p8, Ghost(
        match g {
            Some(v) => Some(v.ai),
            None => None,
        },
    )) {
        Some(x) => x,
        None => {
            return None;
        },
    };
    proof {
        match g {
            Some(v) => {
                lemma_enc_at_split(buf@, p9 as int, enc_opt_item(v.item), enc_u32v(v.level) + (enc_opt_equipment(v.equipment)));
            },
            None => {},
        }
    }
    let (f_item, p10) = match take_opt_item(buf, p9, Ghost(
        match g {
            Some(v) => Some(v.item),
            None => None,
        },
    )) {
        Some(x) => x,
        None => {
            return None;
        },
    };
    proof {
        match g {
            Some(v) => {
                lemma_enc_at_split(buf@, p10 as int, enc_u32v(v.level), enc_opt_equipment(v.equipment));
            },
            None => {},
        }
    }
    let (f_level, p11) = match take_u32(buf, p10, Ghost(
        match g {
            Some(v) => Some(v.level),
            None => None,
        },
    )) {
        Some(x) => x,
        None => {
            return None;
        },
    };
    let (f_equipment, p12) = match take_opt_equipment(buf, p11, Ghost(
        match g {
            Some(v) => Some(v.equipment),
            None => None,
        },
    )) {
        Some(x) => x,
        None => {
            return None;
        },
    };
    Some((DisplayObj { x: f_x, y: f_y, glyph: f_glyph, color: f_color, name: f_name, blocks: f_blocks, alive: f_alive, always_visible: f_always_visible, fighter: f_fighter, ai: f_ai, item: f_item, level: f_level, equipment: f_equipment }, p12))
}


/// The elements of `s` from index `i` on.
pub open spec fn enc_tile_seq(s: Seq<Tile>, i: int) -> Seq<u8>
    decreases s.len() - i,
{
    if i < 0 || i >= s.len() {
        Seq::empty()
    } else {
        (enc_tile(s[i])) + enc_tile_seq(s, i + 1)
    }
}

/// Element count on eight bytes, then the elements.
pub open spec fn enc_tile_list(s: Seq<Tile>) -> Seq<u8> {
    bytes_be(s.len() as int, 8) + enc_tile_seq(s, 0)
}

/// Every element takes at least one byte.
pub proof fn lemma_enc_tile_seq_min(s: Seq<Tile>, i: int)
    requires
        0 <= i <= s.len(),
    ensures
        enc_tile_seq(s, i).len() >= s.len() - i,
    decreases s.len() - i,
{
    if i < s.len() {
        lemma_enc_tile_seq_min(s, i + 1);
        lemma_enc_tile_len(s[i]);
    }
}


fn put_tile_seq(out: &mut Vec<u8>, v: &Vec<Tile>, i: usize)
    requires
        i <= v@.len(),
    ensures
        final(out)@ == old(out)@ + enc_tile_seq(v@, i as int),
    decreases v@.len() - i,
{
    if i == v.len() {
        proof {
            assert(out@ =~= old(out)@ + enc_tile_seq(v@, i as int));
        }
        return ;
    }
    put_tile(out, v[i]);
    put_tile_seq(out, v, i + 1);
    proof {
        assert(out@ =~= old(out)@ + enc_tile_seq(v@, i as int));
    }
}

fn put_tile_list(out: &mut Vec<u8>, v: &Vec<Tile>)
    ensures
        final(out)@ == old(out)@ + enc_tile_list(v@),
{
    proof {
        lemma_pow256_unfoldings();
    }
    put_be(out, v.len() as u64, 8);
    put_tile_seq(out, v, 0);
    proof {
        assert(out@ =~= old(out)@ + enc_tile_list(v@));
    }
}

fn take_tile_seq(
    buf: &Vec<u8>,
    pos: usize,
    count: u64,
    Ghost(g): Ghost<Option<(Seq<Tile>, int)>>,
) -> (r: Option<(Vec<Tile>, usize)>)
    requires
        g matches Some(si) ==> 0 <= si.1 <= si.0.len() && si.0.len() - si.1 == count && enc_at(
            buf@,
            pos as int,
            enc_tile_seq(si.0, si.1),
        ),
    ensures
        g matches Some(si) ==> (r matches Some(x) && x.0@ == si.0.skip(si.1) && x.1 == pos
            + enc_tile_seq(si.0, si.1).len()),
    decreases count,
{
    if count == 0 {
        let empty: Vec<Tile> = Vec::new();
        proof {
            match g {
                Some(si) => {
                    assert(si.0.skip(si.1) =~= Seq::<Tile>::empty());
                    assert(empty@ =~= si.0.skip(si.1));
                },
                None => {},
            }
        }
        return Some((empty, pos));
    }
    if pos >= buf.len() {
        proof {
            match g {
                Some(si) => {
                    lemma_enc_tile_seq_min(si.0, si.1);
                    assert(false);
                },
                None => {},
            }
        }
        return None;
    }
    proof {
        match g {
            Some(si) => {
                lemma_enc_at_split(
                    buf@,
                    pos as int,
                    enc_tile(si.0[si.1]),
                    enc_tile_seq(si.0, si.1 + 1),
                );
                lemma_enc_tile_len(si.0[si.1]);
            },
            None => {},
        }
    }
    let (t, p1) = match take_tile(buf, pos, Ghost(
        match g {
            Some(si) => Some(si.0[si.1]),
            None => None,
        },
    )) {
        Some(x) => x,
        None => {
            return None;
        },
    };
    let (mut v, p2) = match take_tile_seq(buf, p1, count - 1, Ghost(
        match g {
            Some(si) => Some((si.0, si.1 + 1)),
            None => None,
        },
    )) {
        Some(x) => x,
        None => {
            return None;
        },
    };
    v.insert(0, t);
    proof {
        match g {
            Some(si) => {
                assert(v@ =~= si.0.skip(si.1));
            },
            None => {},
        }
    }
    Some((v, p2))
}

fn take_tile_list(buf: &Vec<u8>, pos: usize, Ghost(g): Ghost<Option<Seq<Tile>>>) -> (r: Option<
    (Vec<Tile>, usize),
>)
    requires
        g matches Some(s) ==> enc_at(buf@, pos as int, enc_tile_list(s)),
    ensures
        g matches Some(s) ==> (r matches Some(x) && x.0@ == s && x.1 == pos + enc_tile_list(
            s,
        ).len()),
{
    let buf_len = buf.len();
    proof {
        match g {
            Some(s) => {
                lemma_pow256_unfoldings();
                lemma_enc_at_split(buf@, pos as int, bytes_be(s.len() as int, 8), enc_tile_seq(s, 0));
                lemma_bytes_be_len(s.len() as int, 8);
                lemma_enc_tile_seq_min(s, 0);
            },
            None => {},
        }
    }
    let (count, p1) = match take_be(buf, pos, 8, Ghost(
        match g {
            Some(s) => Some(s.len() as u64),
            None => None,
        },
    )) {
        Some(x) => x,
        None => {
            return None;
        },
    };
    let (v, p2) = match take_tile_seq(buf, p1, count, Ghost(
        match g {
            Some(s) => Some((s, 0int)),
            None => None,
        },
    )) {
        Some(x) => x,
        None => {
            return None;
        },
    };
    proof {
        match g {
            Some(s) => {
                assert(s.skip(0) =~= s);
            },
            None => {},
        }
    }
    Some((v, p2))
}


/// The columns of a tile grid, as plain sequences.
pub open spec fn grid_view(m: Seq<Vec<Tile>>) -> Seq<Seq<Tile>> {
    Seq::new(m.len(), |i: int| m[i]@)
}

/// The elements of the sequence from index `i` on.
pub open spec fn enc_col_seq(s: Seq<Seq<Tile>>, i: int) -> Seq<u8>
    decreases s.len() - i,
{
    if i < 0 || i >= s.len() {
        Seq::empty()
    } else {
        (enc_tile_list(s[i])) + enc_col_seq(s, i + 1)
    }
}

/// Element count on eight bytes, then the elements.
pub open spec fn enc_col_list(s: Seq<Seq<Tile>>) -> Seq<u8> {
    bytes_be(s.len() as int, 8) + enc_col_seq(s, 0)
}

/// Every element takes at least one byte.
pub proof fn lemma_enc_col_seq_min(s: Seq<Seq<Tile>>, i: int)
    requires
        0 <= i <= s.len(),
    ensures
        enc_col_seq(s, i).len() >= s.len() - i,
    decreases s.len() - i,
{
    if i < s.len() {
        lemma_enc_col_seq_min(s, i + 1);
        lemma_bytes_be_len(s[i].len() as int, 8);
    }
}

fn put_col_seq(out: &mut Vec<u8>, v: &Vec<Vec<Tile>>, i: usize)
    requires
        i <= v@.len(),
    ensures
        final(out)@ == old(out)@ + enc_col_seq(grid_view(v@), i as int),
    decreases v@.len() - i,
{
    if i == v.len() {
        proof {
            assert(out@ =~= old(out)@ + enc_col_seq(grid_view(v@), i as int));
        }
        return ;
    }
    put_tile_list(out, &v[i]);
    put_col_seq(out, v, i + 1);
    proof {
        assert(out@ =~= old(out)@ + enc_col_seq(grid_view(v@), i as int));
    }
}

fn put_col_list(out: &mut Vec<u8>, v: &Vec<Vec<Tile>>)
    ensures
        final(out)@ == old(out)@ + enc_col_list(grid_view(v@)),
{
    proof {
        lemma_pow256_unfoldings();
    }
    put_be(out, v.len() as u64, 8);
    put_col_seq(out, v, 0);
    proof {
        assert(out@ =~= old(out)@ + enc_col_list(grid_view(v@)));
    }
}

fn take_col_seq(
    buf: &Vec<u8>,
    pos: usize,
    count: u64,
    Ghost(g): Ghost<Option<(Seq<Seq<Tile>>, int)>>,
) -> (r: Option<(Vec<Vec<Tile>>, usize)>)
    requires
        g matches Some(si) ==> {
            &&& 0 <= si.1 <= si.0.len()
            &&& si.0.len() - si.1 == count
            &&& enc_at(buf@, pos as int, enc_col_seq(si.0, si.1))
        },
    ensures
        g matches Some(si) ==> (r matches Some(x) && x.0@.len() == count && (forall|j: int|
            0 <= j < count ==> (#[trigger] x.0@[j])@ == si.0[si.1 + j]) && x.1 == pos
            + enc_col_seq(si.0, si.1).len()),
    decreases count,
{
    if count == 0 {
        let empty: Vec<Vec<Tile>> = Vec::new();
        return Some((empty, pos));
    }
    if pos >= buf.len() {
        proof {
            match g {
                Some(si) => {
                    lemma_enc_col_seq_min(si.0, si.1);
                    assert(false);
                },
                None => {},
            }
        }
        return None;
    }
    proof {
        match g {
            Some(si) => {
                lemma_enc_at_split(
                    buf@,
                    pos as int,
                    enc_tile_list(si.0[si.1]),
                    enc_col_seq(si.0, si.1 + 1),
                );
            },
            None => {},
        }
    }
    let (col, p1) = match take_tile_list(buf, pos, Ghost(
        match g {
            Some(si) => Some(si.0[si.1]),
            None => None,
        },
    )) {
        Some(x) => x,
        None => {
            return None;
        },
    };
    let (mut v, p2) = match take_col_seq(buf, p1, count - 1, Ghost(
        match g {
            Some(si) => Some((si.0, si.1 + 1)),
            None => None,
        },
    )) {
        Some(x) => x,
        None => {
            return None;
        },
    };
    v.insert(0, col);
    proof {
        match g {
            Some(si) => {
                assert forall|j: int| 0 <= j < count implies (#[trigger] v@[j])@ == si.0[si.1
                    + j] by {
                    if j > 0 {
                        assert(v@[j] == v@.subrange(1, v@.len() as int)[j - 1]);
                    }
                }
            },
            None => {},
        }
    }
    Some((v, p2))
}

fn take_col_list(buf: &Vec<u8>, pos: usize, Ghost(g): Ghost<Option<Seq<Seq<Tile>>>>) -> (r: Option<
    (Vec<Vec<Tile>>, usize),
>)
    requires
        g matches Some(s) ==> enc_at(buf@, pos as int, enc_col_list(s)),
    ensures
        g matches Some(s) ==> (r matches Some(x) && x.0@.len() == s.len() && (forall|j: int|
            0 <= j < s.len() ==> (#[trigger] x.0@[j])@ == s[j]) && x.1 == pos + enc_col_list(
            s,
        ).len()),
{
    let buf_len = buf.len();
    proof {
        match g {
            Some(s) => {
                lemma_pow256_unfoldings();
                lemma_enc_at_split(buf@, pos as int, bytes_be(s.len() as int, 8), enc_col_seq(s, 0));
                lemma_bytes_be_len(s.len() as int, 8);
                lemma_enc_col_seq_min(s, 0);
            },
            None => {},
        }
    }
    let (count, p1) = match take_be(buf, pos, 8, Ghost(
        match g {
            Some(s) => Some(s.len() as u64),
            None => None,
        },
    )) {
        Some(x) => x,
        None => {
            return None;
        },
    };
    match take_col_seq(buf, p1, count, Ghost(
        match g {
            Some(s) => Some((s, 0int)),
            None => None,
        },
    )) {
        Some(x) => Some(x),
        None => None,
    }
}

/// One log entry: its text, then its color.
pub open spec fn enc_msg(m: (Seq<char>, Color)) -> Seq<u8> {
    enc_str(m.0) + enc_color(m.1)
}

/// The elements of the sequence from index `i` on.
pub open spec fn enc_msg_seq(s: Seq<(Seq<char>, Color)>, i: int) -> Seq<u8>
    decreases s.len() - i,
{
    if i < 0 || i >= s.len() {
        Seq::empty()
    } else {
        (enc_msg(s[i])) + enc_msg_seq(s, i + 1)
    }
}

/// Element count on eight bytes, then the elements.
pub open spec fn enc_msg_list(s: Seq<(Seq<char>, Color)>) -> Seq<u8> {
    bytes_be(s.len() as int, 8) + enc_msg_seq(s, 0)
}

/// Every element takes at least one byte.
pub proof fn lemma_enc_msg_seq_min(s: Seq<(Seq<char>, Color)>, i: int)
    requires
        0 <= i <= s.len(),
    ensures
        enc_msg_seq(s, i).len() >= s.len() - i,
    decreases s.len() - i,
{
    if i < s.len() {
        lemma_enc_msg_seq_min(s, i + 1);
        lemma_bytes_be_len(s[i].0.len() as int, 8);
    }
}

fn put_msg_seq(out: &mut Vec<u8>, msgs: &Messages, i: usize)
    requires
        i <= msgs@.len(),
    ensures
        final(out)@ == old(out)@ + enc_msg_seq(msgs@, i as int),
    decreases msgs@.len() - i,
{
    if i == msgs.len() {
        proof {
            assert(out@ =~= old(out)@ + enc_msg_seq(msgs@, i as int));
        }
        return ;
    }
    let entry = msgs.get(i);
    encode_str(out, &entry.0);
    put_color(out, entry.1);
    put_msg_seq(out, msgs, i + 1);
    proof {
        assert(out@ =~= old(out)@ + enc_msg_seq(msgs@, i as int));
    }
}

fn put_msg_list(out: &mut Vec<u8>, msgs: &Messages)
    ensures
        final(out)@ == old(out)@ + enc_msg_list(msgs@),
{
    proof {
        lemma_pow256_unfoldings();
    }
    let n = msgs.len();
    put_be(out, n as u64, 8);
    put_msg_seq(out, msgs, 0);
    proof {
        assert(out@ =~= old(out)@ + enc_msg_list(msgs@));
    }
}

fn take_msg_seq(
    buf: &Vec<u8>,
    pos: usize,
    count: u64,
    msgs: &mut Messages,
    Ghost(g): Ghost<Option<(Seq<(Seq<char>, Color)>, int)>>,
)  -> (r: Option<usize>)
    requires
        g matches Some(si) ==> {
            &&& 0 <= si.1 <= si.0.len()
            &&& si.0.len() - si.1 == count
            &&& enc_at(buf@, pos as int, enc_msg_seq(si.0, si.1))
        },
    ensures
        g matches Some(si) ==> (r matches Some(p) && final(msgs)@ == old(msgs)@ + si.0.skip(si.1)
            && p == pos + enc_msg_seq(si.0, si.1).len()),
    decreases count,
{
    if count == 0 {
        proof {
            match g {
                Some(si) => {
                    assert(msgs@ =~= msgs@ + si.0.skip(si.1));
                },
                None => {},
            }
        }
        return Some(pos);
    }
    if pos >= buf.len() {
        proof {
            match g {
                Some(si) => {
                    lemma_enc_msg_seq_min(si.0, si.1);
                    assert(false);
                },
                None => {},
            }
        }
        return None;
    }
    let buf_len = buf.len();
    proof {
        match g {
            Some(si) => {
                lemma_enc_at_split(buf@, pos as int, enc_msg(si.0[si.1]), enc_msg_seq(si.0, si.1 + 1));
                lemma_enc_at_split(
                    buf@,
                    pos as int,
                    enc_str(si.0[si.1].0),
                    enc_color(si.0[si.1].1),
                );
                lemma_bytes_be_len(si.0[si.1].0.len() as int, 8);
                lemma_enc_chars_len(si.0[si.1].0, 0);
            },
            None => {},
        }
    }
    let (text, p1) = match decode_str(buf, pos, Ghost(
        match g {
            Some(si) => Some(si.0[si.1].0),
            None => None,
        },
    )) {
        Some(x) => x,
        None => {
            return None;
        },
    };
    proof {
        match g {
            Some(si) => {
                lemma_enc_color_len(si.0[si.1].1);
            },
            None => {},
        }
    }
    let (color, p2) = match take_color(buf, p1, Ghost(
        match g {
            Some(si) => Some(si.0[si.1].1),
            None => None,
        },
    )) {
        Some(x) => x,
        None => {
            return None;
        },
    };
    msgs.add(text, color);
    let ghost mid = msgs@;
    let p3 = match take_msg_seq(buf, p2, count - 1, msgs, Ghost(
        match g {
            Some(si) => Some((si.0, si.1 + 1)),
            None => None,
        },
    )) {
        Some(x) => x,
        None => {
            return None;
        },
    };
    proof {
        match g {
            Some(si) => {
                assert(msgs@ =~= old(msgs)@ + si.0.skip(si.1));
            },
            None => {},
        }
    }
    Some(p3)
}

fn take_msg_list(buf: &Vec<u8>, pos: usize, Ghost(g): Ghost<Option<Seq<(Seq<char>, Color)>>>) -> (r:
    Option<(Messages, usize)>)
    requires
        g matches Some(s) ==> enc_at(buf@, pos as int, enc_msg_list(s)),
    ensures
        g matches Some(s) ==> (r matches Some(x) && x.0@ == s && x.1 == pos + enc_msg_list(
            s,
        ).len()),
{
    let buf_len = buf.len();
    proof {
        match g {
            Some(s) => {
                lemma_pow256_unfoldings();
                lemma_enc_at_split(buf@, pos as int, bytes_be(s.len() as int, 8), enc_msg_seq(s, 0));
                lemma_bytes_be_len(s.len() as int, 8);
                lemma_enc_msg_seq_min(s, 0);
            },
            None => {},
        }
    }
    let (count, p1) = match take_be(buf, pos, 8, Ghost(
        match g {
            Some(s) => Some(s.len() as u64),
            None => None,
        },
    )) {
        Some(x) => x,
        None => {
            return None;
        },
    };
    let mut msgs = Messages::new();
    let p2 = match take_msg_seq(buf, p1, count, &mut msgs, Ghost(
        match g {
            Some(s) => Some((s, 0int)),
            None => None,
        },
    )) {
        Some(x) => x,
        None => {
            return None;
        },
    };
    proof {
        match g {
            Some(s) => {
                assert(msgs@ =~= s);
            },
            None => {},
        }
    }
    Some((msgs, p2))
}

/// The elements of the sequence from index `i` on.
pub open spec fn enc_obj_seq(s: Seq<DisplayObj>, i: int) -> Seq<u8>
    decreases s.len() - i,
{
    if i < 0 || i >= s.len() {
        Seq::empty()
    } else {
        (enc_obj(s[i])) + enc_obj_seq(s, i + 1)
    }
}

/// Element count on eight bytes, then the elements.
pub open spec fn enc_obj_list(s: Seq<DisplayObj>) -> Seq<u8> {
    bytes_be(s.len() as int, 8) + enc_obj_seq(s, 0)
}

/// Every element takes at least one byte.
pub proof fn lemma_enc_obj_seq_min(s: Seq<DisplayObj>, i: int)
    requires
        0 <= i <= s.len(),
    ensures
        enc_obj_seq(s, i).len() >= s.len() - i,
    decreases s.len() - i,
{
    if i < s.len() {
        lemma_enc_obj_seq_min(s, i + 1);
        lemma_scalar_enc_lens();
    }
}

fn put_obj_seq(out: &mut Vec<u8>, v: &Vec<DisplayObj>, i: usize)
    requires
        i <= v@.len(),
    ensures
        final(out)@ == old(out)@ + enc_obj_seq(v@, i as int),
    decreases v@.len() - i,
{
    if i == v.len() {
        proof {
            assert(out@ =~= old(out)@ + enc_obj_seq(v@, i as int));
        }
        return ;
    }
    put_obj(out, &v[i]);
    put_obj_seq(out, v, i + 1);
    proof {
        assert(out@ =~= old(out)@ + enc_obj_seq(v@, i as int));
    }
}

fn put_obj_list(out: &mut Vec<u8>, v: &Vec<DisplayObj>)
    ensures
        final(out)@ == old(out)@ + enc_obj_list(v@),
{
    proof {
        lemma_pow256_unfoldings();
    }
    put_be(out, v.len() as u64, 8);
    put_obj_seq(out, v, 0);
    proof {
        assert(out@ =~= old(out)@ + enc_obj_list(v@));
    }
}

fn take_obj_seq(
    buf: &Vec<u8>,
    pos: usize,
    count: u64,
    Ghost(g): Ghost<Option<(Seq<DisplayObj>, int)>>,
) -> (r: Option<(Vec<DisplayObj>, usize)>)
    requires
        g matches Some(si) ==> {
            &&& 0 <= si.1 <= si.0.len()
            &&& si.0.len() - si.1 == count
            &&& enc_at(buf@, pos as int, enc_obj_seq(si.0, si.1))
        },
    ensures
        g matches Some(si) ==> (r matches Some(x) && x.0@.len() == count && (forall|j: int|
            0 <= j < count ==> obj_eq(#[trigger] x.0@[j], si.0[si.1 + j])) && x.1 == pos
            + enc_obj_seq(si.0, si.1).len()),
    decreases count,
{
    if count == 0 {
        let empty: Vec<DisplayObj> = Vec::new();
        return Some((empty, pos));
    }
    if pos >= buf.len() {
        proof {
            match g {
                Some(si) => {
                    lemma_enc_obj_seq_min(si.0, si.1);
                    assert(false);
                },
                None => {},
            }
        }
        return None;
    }
    proof {
        match g {
            Some(si) => {
                lemma_enc_at_split(
                    buf@,
                    pos as int,
                    enc_obj(si.0[si.1]),
                    enc_obj_seq(si.0, si.1 + 1),
                );
            },
            None => {},
        }
    }
    let (o, p1) = match take_obj(buf, pos, Ghost(
        match g {
            Some(si) => Some(si.0[si.1]),
            None => None,
        },
    )) {
        Some(x) => x,
        None => {
            return None;
        },
    };
    let (mut v, p2) = match take_obj_seq(buf, p1, count - 1, Ghost(
        match g {
            Some(si) => Some((si.0, si.1 + 1)),
            None => None,
        },
    )) {
        Some(x) => x,
        None => {
            return None;
        },
    };
    v.insert(0, o);
    proof {
        match g {
            Some(si) => {
                assert forall|j: int| 0 <= j < count implies obj_eq(
                    #[trigger] v@[j],
                    si.0[si.1 + j],
                ) by {
                    if j > 0 {
                        assert(v@[j] == v@.subrange(1, v@.len() as int)[j - 1]);
                    }
                }
            },
            None => {},
        }
    }
    Some((v, p2))
}

fn take_obj_list(buf: &Vec<u8>, pos: usize, Ghost(g): Ghost<Option<Seq<DisplayObj>>>) -> (r: Option<
    (Vec<DisplayObj>, usize),
>)
    requires
        g matches Some(s) ==> enc_at(buf@, pos as int, enc_obj_list(s)),
    ensures
        g matches Some(s) ==> (r matches Some(x) && x.0@.len() == s.len() && (forall|j: int|
            0 <= j < s.len() ==> obj_eq(#[trigger] x.0@[j], s[j])) && x.1 == pos + enc_obj_list(
            s,
        ).len()),
{
    let buf_len = buf.len();
    proof {
        match g {
            Some(s) => {
                lemma_pow256_unfoldings();
                lemma_enc_at_split(buf@, pos as int, bytes_be(s.len() as int, 8), enc_obj_seq(s, 0));
                lemma_bytes_be_len(s.len() as int, 8);
                lemma_enc_obj_seq_min(s, 0);
            },
            None => {},
        }
    }
    let (count, p1) = match take_be(buf, pos, 8, Ghost(
        match g {
            Some(s) => Some(s.len() as u64),
            None => None,
        },
    )) {
        Some(x) => x,
        None => {
            return None;
        },
    };
    match take_obj_seq(buf, p1, count, Ghost(
        match g {
            Some(s) => Some((s, 0int)),
            None => None,
        },
    )) {
        Some(x) => Some(x),
        None => None,
    }
}


pub open spec fn enc_settings_a(v: GameSettings) -> Seq<u8> {
    enc_i32v(v.screen_w) + (enc_i32v(v.screen_h) + (enc_i32v(v.map_w) + (enc_i32v(v.map_h) + (enc_u32v(v.room_max_size) + (enc_u32v(v.room_min_size) + (enc_i32v(v.max_rooms) + (enc_i32v(v.max_room_monsters))))))))
}

pub open spec fn enc_settings_b(v: GameSettings) -> Seq<u8> {
    enc_color(v.dark_wall_color) + (enc_color(v.light_wall_color) + (enc_color(v.dark_ground_color) + (enc_color(v.light_ground_color) + (enc_i32v(v.fps_limit) + (enc_bool(v.fov_light_walls) + (enc_i32v(v.torch_radius)))))))
}

pub open spec fn enc_settings_c(v: GameSettings) -> Seq<u8> {
    enc_i32v(v.bar_w) + (enc_i32v(v.panel_h) + (enc_i32v(v.panel_y) + (enc_i32v(v.msg_x) + (enc_i32v(v.msg_w) + (enc_i32v(v.msg_h))))))
}

/// The display and generation parameters, field by field.
pub open spec fn enc_settings(v: GameSettings) -> Seq<u8> {
    enc_settings_a(v) + (enc_settings_b(v) + enc_settings_c(v))
}

#[verifier::rlimit(100)]
fn put_settings_a(out: &mut Vec<u8>, v: &GameSettings)
    ensures
        final(out)@ == old(out)@ + enc_settings_a(*v),
{
    put_i32(out, v.screen_w);
    put_i32(out, v.screen_h);
    put_i32(out, v.map_w);
    put_i32(out, v.map_h);
    put_u32(out, v.room_max_size);
    put_u32(out, v.room_min_size);
    put_i32(out, v.max_rooms);
    put_i32(out, v.max_room_monsters);
    proof {
        assert(out@ =~= old(out)@ + enc_settings_a(*v));
    }
}

#[verifier::rlimit(100)]
fn put_settings_b(out: &mut Vec<u8>, v: &GameSettings)
    ensures
        final(out)@ == old(out)@ + enc_settings_b(*v),
{
    put_color(out, v.dark_wall_color);
    put_color(out, v.light_wall_color);
    put_color(out, v.dark_ground_color);
    put_color(out, v.light_ground_color);
    put_i32(out, v.fps_limit);
    put_bool(out, v.fov_light_walls);
    put_i32(out, v.torch_radius);
    proof {
        assert(out@ =~= old(out)@ + enc_settings_b(*v));
    }
}

#[verifier::rlimit(100)]
fn put_settings_c(out: &mut Vec<u8>, v: &GameSettings)
    ensures
        final(out)@ == old(out)@ + enc_settings_c(*v),
{
    put_i32(out, v.bar_w);
    put_i32(out, v.panel_h);
    put_i32(out, v.panel_y);
    put_i32(out, v.msg_x);
    put_i32(out, v.msg_w);
    put_i32(out, v.msg_h);
    proof {
        assert(out@ =~= old(out)@ + enc_settings_c(*v));
    }
}

fn put_settings(out: &mut Vec<u8>, v: &GameSettings)
    ensures
        final(out)@ == old(out)@ + enc_settings(*v),
{
    put_settings_a(out, v);
    put_settings_b(out, v);
    put_settings_c(out, v);
    proof {
        assert(out@ =~= old(out)@ + enc_settings(*v));
    }
}

#[verifier::rlimit(100)]
fn take_settings(buf: &Vec<u8>, pos: usize, Ghost(g): Ghost<Option<GameSettings>>) -> (r: Option<
    (GameSettings, usize),
>)
    requires
        g matches Some(v) ==> enc_at(buf@, pos as int, enc_settings(v)),
    ensures
        g matches Some(v) ==> (r matches Some(x) && x.0 == v && x.1 == pos + enc_settings(
            v,
        ).len()),
{
    let buf_len = buf.len();
    proof {
        lemma_scalar_enc_lens();
        match g {
            Some(v) => {
                lemma_enc_at_split(
                    buf@,
                    pos as int,
                    enc_settings_a(v),
                    enc_settings_b(v) + enc_settings_c(v),
                );
            },
            None => {},
        }
    }
    proof {
        match g {
            Some(v) => {
                lemma_enc_at_split(buf@, pos as int, enc_i32v(v.screen_w), enc_i32v(v.screen_h) + (enc_i32v(v.map_w) + (enc_i32v(v.map_h) + (enc_u32v(v.room_max_size) + (enc_u32v(v.room_min_size) + (enc_i32v(v.max_rooms) + (enc_i32v(v.max_room_monsters))))))));
                
            },
            None => {},
        }
    }
    let (f_screen_w, p0) = match take_i32(buf, pos, Ghost(
        match g {
            Some(v) => Some(v.screen_w),
            None => None,
        },
    )) {
        Some(x) => x,
        None => {
            return None;
        },
    };
    proof {
        match g {
            Some(v) => {
                lemma_enc_at_split(buf@, p0 as int, enc_i32v(v.screen_h), enc_i32v(v.map_w) + (enc_i32v(v.map_h) + (enc_u32v(v.room_max_size) + (enc_u32v(v.room_min_size) + (enc_i32v(v.max_rooms) + (enc_i32v(v.max_room_monsters)))))));
                
            },
            None => {},
        }
    }
    let (f_screen_h, p1) = match take_i32(buf, p0, Ghost(
        match g {
            Some(v) => Some(v.screen_h),
            None => None,
        },
    )) {
        Some(x) => x,
        None => {
            return None;
        },
    };
    proof {
        match g {
            Some(v) => {
                lemma_enc_at_split(buf@, p1 as int, enc_i32v(v.map_w), enc_i32v(v.map_h) + (enc_u32v(v.room_max_size) + (enc_u32v(v.room_min_size) + (enc_i32v(v.max_rooms) + (enc_i32v(v.max_room_monsters))))));
                
            },
            None => {},
        }
    }
    let (f_map_w, p2) = match take_i32(buf, p1, Ghost(
        match g {
            Some(v) => Some(v.map_w),
            None => None,
        },
    )) {
        Some(x) => x,
        None => {
            return None;
        },
    };
    proof {
        match g {
            Some(v) => {
                lemma_enc_at_split(buf@, p2 as int, enc_i32v(v.map_h), enc_u32v(v.room_max_size) + (enc_u32v(v.room_min_size) + (enc_i32v(v.max_rooms) + (enc_i32v(v.max_room_monsters)))));
                
            },
            None => {},
        }
    }
    let (f_map_h, p3) = match take_i32(buf, p2, Ghost(
        match g {
            Some(v) => Some(v.map_h),
            None => None,
        },
    )) {
        Some(x) => x,
        None => {
            return None;
        },
    };
    proof {
        match g {
            Some(v) => {
                lemma_enc_at_split(buf@, p3 as int, enc_u32v(v.room_max_size), enc_u32v(v.room_min_size) + (enc_i32v(v.max_rooms) + (enc_i32v(v.max_room_monsters))));
                
            },
            None => {},
        }
    }
    let (f_room_max_size, p4) = match take_u32(buf, p3, Ghost(
        match g {
            Some(v) => Some(v.room_max_size),
            None => None,
        },
    )) {
        Some(x) => x,
        None => {
            return None;
        },
    };
    proof {
        match g {
            Some(v) => {
                lemma_enc_at_split(buf@, p4 as int, enc_u32v(v.room_min_size), enc_i32v(v.max_rooms) + (enc_i32v(v.max_room_monsters)));
                
            },
            None => {},
        }
    }
    let (f_room_min_size, p5) = match take_u32(buf, p4, Ghost(
        match g {
            Some(v) => Some(v.room_min_size),
            None => None,
        },
    )) {
        Some(x) => x,
        None => {
            return None;
        },
    };
    proof {
        match g {
            Some(v) => {
                lemma_enc_at_split(buf@, p5 as int, enc_i32v(v.max_rooms), enc_i32v(v.max_room_monsters));
                
            },
            None => {},
        }
    }
    let (f_max_rooms, p6) = match take_i32(buf, p5, Ghost(
        match g {
            Some(v) => Some(v.max_rooms),
            None => None,
        },
    )) {
        Some(x) => x,
        None => {
            return None;
        },
    };
    let (f_max_room_monsters, p7) = match take_i32(buf, p6, Ghost(
        match g {
            Some(v) => Some(v.max_room_monsters),
            None => None,
        },
    )) {
        Some(x) => x,
        None => {
            return None;
        },
    };
    proof {
        match g {
            Some(v) => {
                lemma_enc_at_split(buf@, p7 as int, enc_settings_b(v), enc_settings_c(v));
            },
            None => {},
        }
    }
    proof {
        match g {
            Some(v) => {
                lemma_enc_at_split(buf@, p7 as int, enc_color(v.dark_wall_color), enc_color(v.light_wall_color) + (enc_color(v.dark_ground_color) + (enc_color(v.light_ground_color) + (enc_i32v(v.fps_limit) + (enc_bool(v.fov_light_walls) + (enc_i32v(v.torch_radius)))))));
                lemma_enc_color_len(v.dark_wall_color);
            },
            None => {},
        }
    }
    let (f_dark_wall_color, p8) = match take_color(buf, p7, Ghost(
        match g {
            Some(v) => Some(v.dark_wall_color),
            None => None,
        },
    )) {
        Some(x) => x,
        None => {
            return None;
        },
    };
    proof {
        match g {
            Some(v) => {
                lemma_enc_at_split(buf@, p8 as int, enc_color(v.light_wall_color), enc_color(v.dark_ground_color) + (enc_color(v.light_ground_color) + (enc_i32v(v.fps_limit) + (enc_bool(v.fov_light_walls) + (enc_i32v(v.torch_radius))))));
                lemma_enc_color_len(v.light_wall_color);
            },
            None => {},
        }
    }
    let (f_light_wall_color, p9) = match take_color(buf, p8, Ghost(
        match g {
            Some(v) => Some(v.light_wall_color),
            None => None,
        },
    )) {
        Some(x) => x,
        None => {
            return None;
        },
    };
    proof {
        match g {
            Some(v) => {
                lemma_enc_at_split(buf@, p9 as int, enc_color(v.dark_ground_color), enc_color(v.light_ground_color) + (enc_i32v(v.fps_limit) + (enc_bool(v.fov_light_walls) + (enc_i32v(v.torch_radius)))));
                lemma_enc_color_len(v.dark_ground_color);
            },
            None => {},
        }
    }
    let (f_dark_ground_color, p10) = match take_color(buf, p9, Ghost(
        match g {
            Some(v) => Some(v.dark_ground_color),
            None => None,
        },
    )) {
        Some(x) => x,
        None => {
            return None;
        },
    };
    proof {
        match g {
            Some(v) => {
                lemma_enc_at_split(buf@, p10 as int, enc_color(v.light_ground_color), enc_i32v(v.fps_limit) + (enc_bool(v.fov_light_walls) + (enc_i32v(v.torch_radius))));
                lemma_enc_color_len(v.light_ground_color);
            },
            None => {},
        }
    }
    let (f_light_ground_color, p11) = match take_color(buf, p10, Ghost(
        match g {
            Some(v) => Some(v.light_ground_color),
            None => None,
        },
    )) {
        Some(x) => x,
        None => {
            return None;
        },
    };
    proof {
        match g {
            Some(v) => {
                lemma_enc_at_split(buf@, p11 as int, enc_i32v(v.fps_limit), enc_bool(v.fov_light_walls) + (enc_i32v(v.torch_radius)));
                
            },
            None => {},
        }
    }
    let (f_fps_limit, p12) = match take_i32(buf, p11, Ghost(
        match g {
            Some(v) => Some(v.fps_limit),
            None => None,
        },
    )) {
        Some(x) => x,
        None => {
            return None;
        },
    };
    proof {
        match g {
            Some(v) => {
                lemma_enc_at_split(buf@, p12 as int, enc_bool(v.fov_light_walls), enc_i32v(v.torch_radius));
                
            },
            None => {},
        }
    }
    let (f_fov_light_walls, p13) = match take_bool(buf, p12, Ghost(
        match g {
            Some(v) => Some(v.fov_light_walls),
            None => None,
        },
    )) {
        Some(x) => x,
        None => {
            return None;
        },
    };
    let (f_torch_radius, p14) = match take_i32(buf, p13, Ghost(
        match g {
            Some(v) => Some(v.torch_radius),
            None => None,
        },
    )) {
        Some(x) => x,
        None => {
            return None;
        },
    };
    proof {
        match g {
            Some(v) => {
                lemma_enc_at_split(buf@, p14 as int, enc_i32v(v.bar_w), enc_i32v(v.panel_h) + (enc_i32v(v.panel_y) + (enc_i32v(v.msg_x) + (enc_i32v(v.msg_w) + (enc_i32v(v.msg_h))))));
                
            },
            None => {},
        }
    }
    let (f_bar_w, p15) = match take_i32(buf, p14, Ghost(
        match g {
            Some(v) => Some(v.bar_w),
            None => None,
        },
    )) {
        Some(x) => x,
        None => {
            return None;
        },
    };
    proof {
        match g {
            Some(v) => {
                lemma_enc_at_split(buf@, p15 as int, enc_i32v(v.panel_h), enc_i32v(v.panel_y) + (enc_i32v(v.msg_x) + (enc_i32v(v.msg_w) + (enc_i32v(v.msg_h)))));
                
            },
            None => {},
        }
    }
    let (f_panel_h, p16) = match take_i32(buf, p15, Ghost(
        match g {
            Some(v) => Some(v.panel_h),
            None => None,
        },
    )) {
        Some(x) => x,
        None => {
            return None;
        },
    };
    proof {
        match g {
            Some(v) => {
                lemma_enc_at_split(buf@, p16 as int, enc_i32v(v.panel_y), enc_i32v(v.msg_x) + (enc_i32v(v.msg_w) + (enc_i32v(v.msg_h))));
                
            },
            None => {},
        }
    }
    let (f_panel_y, p17) = match take_i32(buf, p16, Ghost(
        match g {
            Some(v) => Some(v.panel_y),
            None => None,
        },
    )) {
        Some(x) => x,
        None => {
            return None;
        },
    };
    proof {
        match g {
            Some(v) => {
                lemma_enc_at_split(buf@, p17 as int, enc_i32v(v.msg_x), enc_i32v(v.msg_w) + (enc_i32v(v.msg_h)));
                
            },
            None => {},
        }
    }
    let (f_msg_x, p18) = match take_i32(buf, p17, Ghost(
        match g {
            Some(v) => Some(v.msg_x),
            None => None,
        },
    )) {
        Some(x) => x,
        None => {
            return None;
        },
    };
    proof {
        match g {
            Some(v) => {
                lemma_enc_at_split(buf@, p18 as int, enc_i32v(v.msg_w), enc_i32v(v.msg_h));
                
            },
            None => {},
        }
    }
    let (f_msg_w, p19) = match take_i32(buf, p18, Ghost(
        match g {
            Some(v) => Some(v.msg_w),
            None => None,
        },
    )) {
        Some(x) => x,
        None => {
            return None;
        },
    };
    let (f_msg_h, p20) = match take_i32(buf, p19, Ghost(
        match g {
            Some(v) => Some(v.msg_h),
            None => None,
        },
    )) {
        Some(x) => x,
        None => {
            return None;
        },
    };
    Some((GameSettings { screen_w: f_screen_w, screen_h: f_screen_h, map_w: f_map_w, map_h: f_map_h, room_max_size: f_room_max_size, room_min_size: f_room_min_size, max_rooms: f_max_rooms, max_room_monsters: f_max_room_monsters, dark_wall_color: f_dark_wall_color, light_wall_color: f_light_wall_color, dark_ground_color: f_dark_ground_color, light_ground_color: f_light_ground_color, fps_limit: f_fps_limit, fov_light_walls: f_fov_light_walls, torch_radius: f_torch_radius, bar_w: f_bar_w, panel_h: f_panel_h, panel_y: f_panel_y, msg_x: f_msg_x, msg_w: f_msg_w, msg_h: f_msg_h }, p20))
}

/// The whole game state but the floor objects.
pub open spec fn enc_game(gm: Game) -> Seq<u8> {
    enc_settings(gm.game_settings) + (enc_col_list(grid_view(gm.map@)) + (enc_msg_list(gm.messages@)
        + (enc_obj_list(gm.inventory@) + enc_u32v(gm.dungeon_level))))
}

/// Field-for-field equality of game states: the map, log and inventory
/// compared by their contents.
pub open spec fn game_eq(a: Game, b: Game) -> bool {
    &&& a.game_settings == b.game_settings
    &&& a.map@.len() == b.map@.len()
    &&& forall|i: int| 0 <= i < a.map@.len() ==> (#[trigger] a.map@[i])@ == b.map@[i]@
    &&& a.messages@ == b.messages@
    &&& a.inventory@.len() == b.inventory@.len()
    &&& forall|i: int|
        0 <= i < a.inventory@.len() ==> obj_eq(#[trigger] a.inventory@[i], b.inventory@[i])
    &&& a.dungeon_level == b.dungeon_level
}

/// Field-for-field equality of object lists.
pub open spec fn objs_eq(a: Seq<DisplayObj>, b: Seq<DisplayObj>) -> bool {
    &&& a.len() == b.len()
    &&& forall|i: int| 0 <= i < a.len() ==> obj_eq(#[trigger] a[i], b[i])
}

#[verifier::rlimit(100)]
fn put_game(out: &mut Vec<u8>, gm: &Game)
    ensures
        final(out)@ == old(out)@ + enc_game(*gm),
{
    put_settings(out, &gm.game_settings);
    put_col_list(out, &gm.map);
    put_msg_list(out, &gm.messages);
    put_obj_list(out, &gm.inventory);
    put_u32(out, gm.dungeon_level);
    proof {
        assert(out@ =~= old(out)@ + enc_game(*gm));
    }
}

fn take_game(buf: &Vec<u8>, pos: usize, Ghost(g): Ghost<Option<Game>>) -> (r: Option<
    (Game, usize),
>)
    requires
        g matches Some(gm) ==> enc_at(buf@, pos as int, enc_game(gm)),
    ensures
        g matches Some(gm) ==> (r matches Some(x) && game_eq(x.0, gm) && x.1 == pos + enc_game(
            gm,
        ).len()),
{
    broadcast use vstd::std_specs::vec::axiom_spec_len;

    let buf_len = buf.len();
    proof {
        lemma_scalar_enc_lens();
        match g {
            Some(gm) => {
                lemma_enc_at_split(
                    buf@,
                    pos as int,
                    enc_settings(gm.game_settings),
                    enc_col_list(grid_view(gm.map@)) + (enc_msg_list(gm.messages@) + (enc_obj_list(
                        gm.inventory@,
                    ) + enc_u32v(gm.dungeon_level))),
                );
            },
            None => {},
        }
    }
    let (settings, p1) = match take_settings(buf, pos, Ghost(
        match g {
            Some(gm) => Some(gm.game_settings),
            None => None,
        },
    )) {
        Some(x) => x,
        None => {
            return None;
        },
    };
    proof {
        match g {
            Some(gm) => {
                lemma_enc_at_split(
                    buf@,
                    p1 as int,
                    enc_col_list(grid_view(gm.map@)),
                    enc_msg_list(gm.messages@) + (enc_obj_list(gm.inventory@) + enc_u32v(
                        gm.dungeon_level,
                    )),
                );
            },
            None => {},
        }
    }
    let (map, p2) = match take_col_list(buf, p1, Ghost(
        match g {
            Some(gm) => Some(grid_view(gm.map@)),
            None => None,
        },
    )) {
        Some(x) => x,
        None => {
            return None;
        },
    };
    proof {
        match g {
            Some(gm) => {
                lemma_enc_at_split(
                    buf@,
                    p2 as int,
                    enc_msg_list(gm.messages@),
                    enc_obj_list(gm.inventory@) + enc_u32v(gm.dungeon_level),
                );
            },
            None => {},
        }
    }
    let (messages, p3) = match take_msg_list(buf, p2, Ghost(
        match g {
            Some(gm) => Some(gm.messages@),
            None => None,
        },
    )) {
        Some(x) => x,
        None => {
            return None;
        },
    };
    proof {
        match g {
            Some(gm) => {
                lemma_enc_at_split(
                    buf@,
                    p3 as int,
                    enc_obj_list(gm.inventory@),
                    enc_u32v(gm.dungeon_level),
                );
            },
            None => {},
        }
    }
    let (inventory, p4) = match take_obj_list(buf, p3, Ghost(
        match g {
            Some(gm) => Some(gm.inventory@),
            None => None,
        },
    )) {
        Some(x) => x,
        None => {
            return None;
        },
    };
    let (dungeon_level, p5) = match take_u32(buf, p4, Ghost(
        match g {
            Some(gm) => Some(gm.dungeon_level),
            None => None,
        },
    )) {
        Some(x) => x,
        None => {
            return None;
        },
    };
    let result = Game { game_settings: settings, map, messages, inventory, dungeon_level };
    proof {
        match g {
            Some(gm) => {
                assert forall|i: int| 0 <= i < gm.map@.len() implies (#[trigger] result.map@[i])@
                    == gm.map@[i]@ by {
                    assert(grid_view(gm.map@)[i] == gm.map@[i]@);
                }
                assert(game_eq(result, gm));
            },
            None => {},
        }
    }
    Some((result, p5))
}

/// A full snapshot: the game state, then the floor objects.
pub open spec fn enc_snapshot(gm: Game, objs: Seq<DisplayObj>) -> Seq<u8> {
    enc_game(gm) + enc_obj_list(objs)
}

/// Serialize a snapshot of the game and its object list.
pub fn save_snapshot(game: &Game, objects: &Vec<DisplayObj>) -> (out: Vec<u8>)
    ensures
        out@ == enc_snapshot(*game, objects@),
{
    let mut out: Vec<u8> = Vec::new();
    put_game(&mut out, game);
    put_obj_list(&mut out, objects);
    proof {
        assert(out@ =~= enc_snapshot(*game, objects@));
    }
    out
}

fn take_snapshot(buf: &Vec<u8>, Ghost(g): Ghost<Option<(Game, Seq<DisplayObj>)>>) -> (r: Option<
    (Game, Vec<DisplayObj>),
>)
    requires
        g matches Some(w) ==> buf@ == enc_snapshot(w.0, w.1),
    ensures
        g matches Some(w) ==> (r matches Some(x) && game_eq(x.0, w.0) && objs_eq(x.1@, w.1)),
{
    broadcast use vstd::std_specs::vec::axiom_spec_len;

    proof {
        match g {
            Some(w) => {
                assert(enc_at(buf@, 0, enc_snapshot(w.0, w.1))) by {
                    assert(buf@.subrange(0, buf@.len() as int) =~= buf@);
                }
                lemma_enc_at_split(buf@, 0, enc_game(w.0), enc_obj_list(w.1));
            },
            None => {},
        }
    }
    let (game, p1) = match take_game(buf, 0, Ghost(
        match g {
            Some(w) => Some(w.0),
            None => None,
        },
    )) {
        Some(x) => x,
        None => {
            return None;
        },
    };
    let (objects, p2) = match take_obj_list(buf, p1, Ghost(
        match g {
            Some(w) => Some(w.1),
            None => None,
        },
    )) {
        Some(x) => x,
        None => {
            return None;
        },
    };
    if p2 != buf.len() {
        // a snapshot owns its whole byte string: trailing bytes are a
        // malformed save
        proof {
            if g is Some {
                assert(false);
            }
        }
        return None;
    }
    Some((game, objects))
}

/// Read a snapshot back, refusing any byte string that is not exactly
/// one encoded snapshot.  On a byte string that does encode a snapshot
/// the result is a state field-for-field identical to one that encodes
/// those bytes.
pub fn load_snapshot(buf: &Vec<u8>) -> (r: Option<(Game, Vec<DisplayObj>)>)
    ensures
        (exists|gm: Game, objs: Seq<DisplayObj>| buf@ == enc_snapshot(gm, objs)) ==> (r matches Some(
            x,
        ) && exists|gm: Game, objs: Seq<DisplayObj>|
            buf@ == #[trigger] enc_snapshot(gm, objs) && game_eq(x.0, gm) && objs_eq(x.1@, objs)),
{
    let ghost w: Option<(Game, Seq<DisplayObj>)> = if exists|gm: Game, objs: Seq<DisplayObj>|
        buf@ == enc_snapshot(gm, objs) {
        let (gm, objs) = choose|gm: Game, objs: Seq<DisplayObj>| buf@ == enc_snapshot(gm, objs);
        Some((gm, objs))
    } else {
        None
    };
    take_snapshot(buf, Ghost(w))
}

/// Saving a snapshot and loading it back yields a field-for-field
/// identical game state: nothing is lost on the way to disk.
pub fn snapshot_roundtrip(game: &Game, objects: &Vec<DisplayObj>) -> (r: Option<
    (Game, Vec<DisplayObj>),
>)
    ensures
        r matches Some(x) && game_eq(x.0, *game) && objs_eq(x.1@, objects@),
{
    let buf = save_snapshot(game, objects);
    take_snapshot(&buf, Ghost(Some((*game, objects@))))
}

} // verus!
