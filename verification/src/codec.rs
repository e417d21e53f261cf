//! The serialized payload format for asset lists: what the cache stores
//! under a sync key and what the folder manifest blob holds. Length-prefixed
//! and byte-exact, with a proven round trip.

use vstd::prelude::*;
use vstd::utf8::{encode_utf8, decode_utf8, valid_utf8};
use crate::models::{EmoteResponse, EmoteResponseV};

verus! {

/// Relies on std's String::from_utf8: it succeeds exactly on valid UTF-8,
/// and the resulting string holds exactly the given bytes.
pub assume_specification[ String::from_utf8 ](v: Vec<u8>) -> (r: Result<
    String,
    std::string::FromUtf8Error,
>)
    ensures
        (r is Ok) == valid_utf8(v@),
        r matches Ok(s) ==> encode_utf8(s@) =~= v@,
;

#[verifier::external_type_specification]
#[verifier::external_body]
pub struct ExFromUtf8Error(std::string::FromUtf8Error);

/// A 32-bit length, little endian.
pub open spec fn spec_le32(n: int) -> Seq<u8> {
    seq![
        (n % 256) as u8,
        ((n / 256) % 256) as u8,
        ((n / 65536) % 256) as u8,
        ((n / 16777216) % 256) as u8,
    ]
}

/// Reads a 32-bit little-endian value at `i`.
pub open spec fn spec_read_le32(b: Seq<u8>, i: int) -> Option<(int, int)> {
    if 0 <= i && i + 4 <= b.len() {
        Some(
            (
                b[i] as int + 256 * (b[i + 1] as int) + 65536 * (b[i + 2] as int) + 16777216 * (b[i
                    + 3] as int),
                i + 4,
            ),
        )
    } else {
        None
    }
}

/// An encoded string: the UTF-8 byte length, then the UTF-8 bytes.
#[verifier::opaque]
pub open spec fn spec_enc_str(s: Seq<char>) -> Seq<u8> {
    spec_le32(encode_utf8(s).len() as int) + encode_utf8(s)
}

/// Reads an encoded string at `i`.
pub open spec fn spec_read_str(b: Seq<u8>, i: int) -> Option<(Seq<char>, int)> {
    match spec_read_le32(b, i) {
        None => None,
        Some((n, j)) => {
            if j + n <= b.len() && valid_utf8(b.subrange(j, j + n)) {
                Some((decode_utf8(b.subrange(j, j + n)), j + n))
            } else {
                None
            }
        },
    }
}

/// A string fits the format when its UTF-8 byte length fits 32 bits.
pub open spec fn wf_str(s: Seq<char>) -> bool {
    encode_utf8(s).len() < 4294967296
}

proof fn lemma_read_le32(pre: Seq<u8>, n: int, suf: Seq<u8>)
    requires
        0 <= n < 4294967296,
    ensures
        spec_read_le32(pre + spec_le32(n) + suf, pre.len() as int) == Some(
            (n, pre.len() as int + 4),
        ),
{
    let b = pre + spec_le32(n) + suf;
    let i = pre.len() as int;
    assert(b[i] == (n % 256) as u8);
    assert(b[i + 1] == ((n / 256) % 256) as u8);
    assert(b[i + 2] == ((n / 65536) % 256) as u8);
    assert(b[i + 3] == ((n / 16777216) % 256) as u8);
    assert(n % 256 + 256 * ((n / 256) % 256) + 65536 * ((n / 65536) % 256) + 16777216 * ((n
        / 16777216) % 256) == n) by (nonlinear_arith)
        requires
            0 <= n < 4294967296,
    ;
}

proof fn lemma_read_str(pre: Seq<u8>, s: Seq<char>, suf: Seq<u8>)
    requires
        wf_str(s),
    ensures
        spec_read_str(pre + spec_enc_str(s) + suf, pre.len() as int) == Some(
            (s, pre.len() as int + spec_enc_str(s).len() as int),
        ),
{
    reveal(spec_enc_str);
    let bytes = encode_utf8(s);
    let n = bytes.len() as int;
    let b = pre + spec_enc_str(s) + suf;
    assert(b =~= pre + spec_le32(n) + (bytes + suf));
    lemma_read_le32(pre, n, bytes + suf);
    let j = pre.len() as int + 4;
    assert(b.subrange(j, j + n) =~= bytes);
    broadcast use vstd::utf8::encode_utf8_valid_utf8;
    broadcast use vstd::utf8::encode_utf8_decode_utf8;

    assert(decode_utf8(bytes) == s);
}

fn push_u32(out: &mut Vec<u8>, n: u32)
    ensures
        final(out)@ == old(out)@ + spec_le32(n as int),
{
    out.push((n % 256) as u8);
    out.push(((n / 256) % 256) as u8);
    out.push(((n / 65536) % 256) as u8);
    out.push(((n / 16777216) % 256) as u8);
    proof {
        assert(out@ =~= old(out)@ + spec_le32(n as int));
    }
}

fn push_str(out: &mut Vec<u8>, s: &String)
    requires
        wf_str(s@),
    ensures
        final(out)@ == old(out)@ + spec_enc_str(s@),
{
    let mut bytes = s.as_str().as_bytes_vec();
    push_u32(out, bytes.len() as u32);
    out.append(&mut bytes);
    proof {
        reveal(spec_enc_str);
        assert(out@ =~= old(out)@ + spec_enc_str(s@));
    }
}

fn read_u32(b: &Vec<u8>, i: usize) -> (r: Option<(u32, usize)>)
    ensures
        match r {
            Some((n, j)) => spec_read_le32(b@, i as int) == Some((n as int, j as int)),
            None => spec_read_le32(b@, i as int) is None,
        },
{
    if b.len() < 4 || i > b.len() - 4 {
        return None;
    }
    let n: u32 = b[i] as u32 + 256 * (b[i + 1] as u32) + 65536 * (b[i + 2] as u32) + 16777216 * (
    b[i + 3] as u32);
    Some((n, i + 4))
}

fn read_str(b: &Vec<u8>, i: usize) -> (r: Option<(String, usize)>)
    ensures
        match r {
            Some((s, j)) => spec_read_str(b@, i as int) == Some((s@, j as int)),
            None => spec_read_str(b@, i as int) is None,
        },
{
    let (n, j) = match read_u32(b, i) {
        Some(p) => p,
        None => {
            return None;
        },
    };
    let n = n as usize;
    let blen = b.len();
    proof {
        assert(j <= blen);
    }
    if n > blen - j {
        return None;
    }
    let mut buf: Vec<u8> = Vec::new();
    let mut k: usize = j;
    while k < j + n
        invariant
            blen == b@.len(),
            j + n <= blen,
            j <= k <= j + n,
            buf@ =~= b@.subrange(j as int, k as int),
        decreases j + n - k,
    {
        buf.push(b[k]);
        k += 1;
    }
    proof {
        assert(buf@ =~= b@.subrange(j as int, j + n as int));
    }
    match String::from_utf8(buf) {
        Ok(s) => {
            proof {
                broadcast use vstd::utf8::encode_utf8_decode_utf8;

                assert(decode_utf8(b@.subrange(j as int, j + n as int)) == s@);
            }
            Some((s, j + n))
        },
        Err(_) => None,
    }
}

/// An optional string: a presence tag, then the string when present.
#[verifier::opaque]
pub open spec fn spec_enc_opt_str(o: Option<Seq<char>>) -> Seq<u8> {
    match o {
        None => seq![0u8],
        Some(s) => seq![1u8] + spec_enc_str(s),
    }
}

/// An optional boolean: a presence tag, then one byte.
#[verifier::opaque]
pub open spec fn spec_enc_opt_bool(o: Option<bool>) -> Seq<u8> {
    match o {
        None => seq![0u8],
        Some(b) => seq![
            1u8,
            if b {
                1u8
            } else {
                0u8
            },
        ],
    }
}

/// The 32-bit two's-complement image of a signed value.
pub open spec fn spec_to_u32(v: int) -> int {
    if v < 0 {
        v + 4294967296
    } else {
        v
    }
}

/// An optional signed 32-bit value: a presence tag, then four bytes.
#[verifier::opaque]
pub open spec fn spec_enc_opt_i32(o: Option<int>) -> Seq<u8> {
    match o {
        None => seq![0u8],
        Some(v) => seq![1u8] + spec_le32(spec_to_u32(v)),
    }
}

/// An encoded asset: its eight fields in order.
pub open spec fn spec_enc_asset(a: EmoteResponseV) -> Seq<u8> {
    spec_enc_str(a.file_name) + spec_enc_str(a.url) + spec_enc_str(a.emote_id) + spec_enc_str(
        a.emote_name,
    ) + spec_enc_opt_str(a.owner) + spec_enc_opt_bool(a.animated) + spec_enc_opt_i32(a.scale)
        + spec_enc_opt_str(a.mime)
}

/// The assets one after another.
pub open spec fn spec_enc_list(l: Seq<EmoteResponseV>) -> Seq<u8>
    decreases l.len(),
{
    if l.len() == 0 {
        Seq::empty()
    } else {
        spec_enc_asset(l[0]) + spec_enc_list(l.drop_first())
    }
}

/// A whole payload: the asset count, then the assets.
pub open spec fn spec_enc_assets(l: Seq<EmoteResponseV>) -> Seq<u8> {
    spec_le32(l.len() as int) + spec_enc_list(l)
}

/// An asset fits the format when each string's UTF-8 byte length fits
/// 32 bits and the scale fits a signed 32-bit value.
pub open spec fn wf_asset(a: EmoteResponseV) -> bool {
    &&& wf_str(a.file_name)
    &&& wf_str(a.url)
    &&& wf_str(a.emote_id)
    &&& wf_str(a.emote_name)
    &&& (a.owner matches Some(s) ==> wf_str(s))
    &&& (a.mime matches Some(s) ==> wf_str(s))
    &&& (a.scale matches Some(v) ==> -2147483648 <= v < 2147483648)
}

/// A payload fits the format when its count fits 32 bits and each asset
/// fits.
pub open spec fn wf_assets(l: Seq<EmoteResponseV>) -> bool {
    &&& l.len() < 4294967296
    &&& forall|i: int| 0 <= i < l.len() ==> wf_asset(#[trigger] l[i])
}

/// Reads one byte at `i`.
pub open spec fn spec_read_u8(b: Seq<u8>, i: int) -> Option<(u8, int)> {
    if 0 <= i && i + 1 <= b.len() {
        Some((b[i], i + 1))
    } else {
        None
    }
}

/// Reads an optional string at `i`.
pub open spec fn spec_read_opt_str(b: Seq<u8>, i: int) -> Option<(Option<Seq<char>>, int)> {
    match spec_read_u8(b, i) {
        None => None,
        Some((tag, j)) => {
            if tag == 0 {
                Some((None, j))
            } else if tag == 1 {
                match spec_read_str(b, j) {
                    None => None,
                    Some((s, k)) => Some((Some(s), k)),
                }
            } else {
                None
            }
        },
    }
}

/// Reads an optional boolean at `i`.
pub open spec fn spec_read_opt_bool(b: Seq<u8>, i: int) -> Option<(Option<bool>, int)> {
    match spec_read_u8(b, i) {
        None => None,
        Some((tag, j)) => {
            if tag == 0 {
                Some((None, j))
            } else if tag == 1 {
                match spec_read_u8(b, j) {
                    None => None,
                    Some((v, k)) => {
                        if v == 0 {
                            Some((Some(false), k))
                        } else if v == 1 {
                            Some((Some(true), k))
                        } else {
                            None
                        }
                    },
                }
            } else {
                None
            }
        },
    }
}

/// Reads an optional signed 32-bit value at `i`.
pub open spec fn spec_read_opt_i32(b: Seq<u8>, i: int) -> Option<(Option<int>, int)> {
    match spec_read_u8(b, i) {
        None => None,
        Some((tag, j)) => {
            if tag == 0 {
                Some((None, j))
            } else if tag == 1 {
                match spec_read_le32(b, j) {
                    None => None,
                    Some((n, k)) => Some(
                        (
                            Some(
                                if n >= 2147483648 {
                                    n - 4294967296
                                } else {
                                    n
                                },
                            ),
                            k,
                        ),
                    ),
                }
            } else {
                None
            }
        },
    }
}

/// Reads one asset at `i`.
pub open spec fn spec_read_asset(b: Seq<u8>, i: int) -> Option<(EmoteResponseV, int)> {
    match spec_read_str(b, i) {
        None => None,
        Some((file_name, i1)) => match spec_read_str(b, i1) {
            None => None,
            Some((url, i2)) => match spec_read_str(b, i2) {
                None => None,
                Some((emote_id, i3)) => match spec_read_str(b, i3) {
                    None => None,
                    Some((emote_name, i4)) => match spec_read_opt_str(b, i4) {
                        None => None,
                        Some((owner, i5)) => match spec_read_opt_bool(b, i5) {
                            None => None,
                            Some((animated, i6)) => match spec_read_opt_i32(b, i6) {
                                None => None,
                                Some((scale, i7)) => match spec_read_opt_str(b, i7) {
                                    None => None,
                                    Some((mime, i8)) => Some(
                                        (
                                            EmoteResponseV {
                                                file_name,
                                                url,
                                                emote_id,
                                                emote_name,
                                                owner,
                                                animated,
                                                scale,
                                                mime,
                                            },
                                            i8,
                                        ),
                                    ),
                                },
                            },
                        },
                    },
                },
            },
        },
    }
}

/// Reads `count` assets starting at `i`.
pub open spec fn spec_read_list(b: Seq<u8>, i: int, count: nat) -> Option<
    (Seq<EmoteResponseV>, int),
>
    decreases count,
{
    if count == 0 {
        Some((Seq::empty(), i))
    } else {
        match spec_read_asset(b, i) {
            None => None,
            Some((a, j)) => match spec_read_list(b, j, (count - 1) as nat) {
                None => None,
                Some((l, e)) => Some((seq![a] + l, e)),
            },
        }
    }
}

/// Reads a whole payload; trailing bytes are an error.
pub open spec fn spec_read_assets(b: Seq<u8>) -> Option<Seq<EmoteResponseV>> {
    match spec_read_le32(b, 0) {
        None => None,
        Some((count, j)) => match spec_read_list(b, j, count as nat) {
            None => None,
            Some((l, e)) => {
                if e == b.len() {
                    Some(l)
                } else {
                    None
                }
            },
        },
    }
}

proof fn lemma_read_u8(pre: Seq<u8>, x: u8, suf: Seq<u8>)
    ensures
        spec_read_u8(pre + seq![x] + suf, pre.len() as int) == Some((x, pre.len() as int + 1)),
{
    let b = pre + seq![x] + suf;
    assert(b[pre.len() as int] == x);
}

proof fn lemma_read_opt_str(pre: Seq<u8>, o: Option<Seq<char>>, suf: Seq<u8>)
    requires
        o matches Some(s) ==> wf_str(s),
    ensures
        spec_read_opt_str(pre + spec_enc_opt_str(o) + suf, pre.len() as int) == Some(
            (o, pre.len() as int + spec_enc_opt_str(o).len() as int),
        ),
{
    reveal(spec_enc_opt_str);
    let b = pre + spec_enc_opt_str(o) + suf;
    match o {
        None => {
            assert(b =~= pre + seq![0u8] + suf);
            lemma_read_u8(pre, 0u8, suf);
        },
        Some(s) => {
            assert(b =~= pre + seq![1u8] + (spec_enc_str(s) + suf));
            lemma_read_u8(pre, 1u8, spec_enc_str(s) + suf);
            assert(b =~= (pre + seq![1u8]) + spec_enc_str(s) + suf);
            lemma_read_str(pre + seq![1u8], s, suf);
        },
    }
}

proof fn lemma_read_opt_bool(pre: Seq<u8>, o: Option<bool>, suf: Seq<u8>)
    ensures
        spec_read_opt_bool(pre + spec_enc_opt_bool(o) + suf, pre.len() as int) == Some(
            (o, pre.len() as int + spec_enc_opt_bool(o).len() as int),
        ),
{
    reveal(spec_enc_opt_bool);
    let b = pre + spec_enc_opt_bool(o) + suf;
    match o {
        None => {
            assert(b =~= pre + seq![0u8] + suf);
            lemma_read_u8(pre, 0u8, suf);
        },
        Some(v) => {
            let payload: u8 = if v {
                1u8
            } else {
                0u8
            };
            assert(b =~= pre + seq![1u8] + (seq![payload] + suf));
            lemma_read_u8(pre, 1u8, seq![payload] + suf);
            assert(b =~= (pre + seq![1u8]) + seq![payload] + suf);
            lemma_read_u8(pre + seq![1u8], payload, suf);
        },
    }
}

proof fn lemma_read_opt_i32(pre: Seq<u8>, o: Option<int>, suf: Seq<u8>)
    requires
        o matches Some(v) ==> -2147483648 <= v < 2147483648,
    ensures
        spec_read_opt_i32(pre + spec_enc_opt_i32(o) + suf, pre.len() as int) == Some(
            (o, pre.len() as int + spec_enc_opt_i32(o).len() as int),
        ),
{
    reveal(spec_enc_opt_i32);
    let b = pre + spec_enc_opt_i32(o) + suf;
    match o {
        None => {
            assert(b =~= pre + seq![0u8] + suf);
            lemma_read_u8(pre, 0u8, suf);
        },
        Some(v) => {
            let n = spec_to_u32(v);
            assert(b =~= pre + seq![1u8] + (spec_le32(n) + suf));
            lemma_read_u8(pre, 1u8, spec_le32(n) + suf);
            assert(b =~= (pre + seq![1u8]) + spec_le32(n) + suf);
            lemma_read_le32(pre + seq![1u8], n, suf);
        },
    }
}

#[verifier::rlimit(100)]
#[verifier::spinoff_prover]
proof fn lemma_read_asset_strs(pre: Seq<u8>, a: EmoteResponseV, suf: Seq<u8>)
    requires
        wf_asset(a),
    ensures
        ({
            let b = pre + (spec_enc_str(a.file_name) + spec_enc_str(a.url) + spec_enc_str(
                a.emote_id,
            ) + spec_enc_str(a.emote_name)) + suf;
            let i1 = pre.len() as int + spec_enc_str(a.file_name).len();
            let i2 = i1 + spec_enc_str(a.url).len();
            let i3 = i2 + spec_enc_str(a.emote_id).len();
            let i4 = i3 + spec_enc_str(a.emote_name).len();
            &&& spec_read_str(b, pre.len() as int) == Some((a.file_name, i1 as int))
            &&& spec_read_str(b, i1 as int) == Some((a.url, i2 as int))
            &&& spec_read_str(b, i2 as int) == Some((a.emote_id, i3 as int))
            &&& spec_read_str(b, i3 as int) == Some((a.emote_name, i4 as int))
        }),
{
    let e1 = spec_enc_str(a.file_name);
    let e2 = spec_enc_str(a.url);
    let e3 = spec_enc_str(a.emote_id);
    let e4 = spec_enc_str(a.emote_name);
    let b = pre + (e1 + e2 + e3 + e4) + suf;
    assert(b =~= pre + e1 + (e2 + e3 + e4 + suf));
    lemma_read_str(pre, a.file_name, e2 + e3 + e4 + suf);
    let p1 = pre + e1;
    assert(b =~= p1 + e2 + (e3 + e4 + suf));
    lemma_read_str(p1, a.url, e3 + e4 + suf);
    let p2 = p1 + e2;
    assert(b =~= p2 + e3 + (e4 + suf));
    lemma_read_str(p2, a.emote_id, e4 + suf);
    let p3 = p2 + e3;
    assert(b =~= p3 + e4 + suf);
    lemma_read_str(p3, a.emote_name, suf);
}

#[verifier::rlimit(100)]
#[verifier::spinoff_prover]
proof fn lemma_read_asset_opts(pre: Seq<u8>, a: EmoteResponseV, suf: Seq<u8>)
    requires
        wf_asset(a),
    ensures
        ({
            let b = pre + (spec_enc_opt_str(a.owner) + spec_enc_opt_bool(a.animated)
                + spec_enc_opt_i32(a.scale) + spec_enc_opt_str(a.mime)) + suf;
            let i5 = pre.len() as int + spec_enc_opt_str(a.owner).len();
            let i6 = i5 + spec_enc_opt_bool(a.animated).len();
            let i7 = i6 + spec_enc_opt_i32(a.scale).len();
            let i8 = i7 + spec_enc_opt_str(a.mime).len();
            &&& spec_read_opt_str(b, pre.len() as int) == Some((a.owner, i5 as int))
            &&& spec_read_opt_bool(b, i5 as int) == Some((a.animated, i6 as int))
            &&& spec_read_opt_i32(b, i6 as int) == Some((a.scale, i7 as int))
            &&& spec_read_opt_str(b, i7 as int) == Some((a.mime, i8 as int))
        }),
{
    let e5 = spec_enc_opt_str(a.owner);
    let e6 = spec_enc_opt_bool(a.animated);
    let e7 = spec_enc_opt_i32(a.scale);
    let e8 = spec_enc_opt_str(a.mime);
    let b = pre + (e5 + e6 + e7 + e8) + suf;
    assert(b =~= pre + e5 + (e6 + e7 + e8 + suf));
    lemma_read_opt_str(pre, a.owner, e6 + e7 + e8 + suf);
    let p5 = pre + e5;
    assert(b =~= p5 + e6 + (e7 + e8 + suf));
    lemma_read_opt_bool(p5, a.animated, e7 + e8 + suf);
    let p6 = p5 + e6;
    assert(b =~= p6 + e7 + (e8 + suf));
    lemma_read_opt_i32(p6, a.scale, e8 + suf);
    let p7 = p6 + e7;
    assert(b =~= p7 + e8 + suf);
    lemma_read_opt_str(p7, a.mime, suf);
}

#[verifier::rlimit(100)]
#[verifier::spinoff_prover]
proof fn lemma_read_asset(pre: Seq<u8>, a: EmoteResponseV, suf: Seq<u8>)
    requires
        wf_asset(a),
    ensures
        spec_read_asset(pre + spec_enc_asset(a) + suf, pre.len() as int) == Some(
            (a, pre.len() as int + spec_enc_asset(a).len() as int),
        ),
{
    let b = pre + spec_enc_asset(a) + suf;
    let h1 = spec_enc_str(a.file_name) + spec_enc_str(a.url) + spec_enc_str(a.emote_id)
        + spec_enc_str(a.emote_name);
    let h2 = spec_enc_opt_str(a.owner) + spec_enc_opt_bool(a.animated) + spec_enc_opt_i32(a.scale)
        + spec_enc_opt_str(a.mime);
    assert(b =~= pre + h1 + (h2 + suf));
    lemma_read_asset_strs(pre, a, h2 + suf);
    assert(b =~= (pre + h1) + h2 + suf);
    lemma_read_asset_opts(pre + h1, a, suf);
}

/// Appending one asset to a list appends its encoding.
#[verifier::rlimit(100)]
#[verifier::spinoff_prover]
proof fn lemma_enc_list_snoc(l: Seq<EmoteResponseV>, x: EmoteResponseV)
    ensures
        spec_enc_list(l.push(x)) == spec_enc_list(l) + spec_enc_asset(x),
    decreases l.len(),
{
    if l.len() == 0 {
        assert(spec_enc_list(Seq::<EmoteResponseV>::empty()) == Seq::<u8>::empty());
        assert(l.push(x)[0] == x);
        assert(l.push(x).drop_first() =~= Seq::<EmoteResponseV>::empty());
        assert(spec_enc_list(l.push(x)) == spec_enc_asset(x) + Seq::<u8>::empty());
        assert(spec_enc_asset(x) + Seq::<u8>::empty() =~= spec_enc_asset(x));
        assert(l =~= Seq::<EmoteResponseV>::empty());
        assert(spec_enc_list(l) + spec_enc_asset(x) =~= spec_enc_asset(x));
    } else {
        assert(l.push(x).drop_first() =~= l.drop_first().push(x));
        assert(l.push(x)[0] == l[0]);
        lemma_enc_list_snoc(l.drop_first(), x);
        assert(spec_enc_list(l.push(x)) =~= spec_enc_list(l) + spec_enc_asset(x));
    }
}

#[verifier::rlimit(100)]
#[verifier::spinoff_prover]
proof fn lemma_read_list(pre: Seq<u8>, l: Seq<EmoteResponseV>, suf: Seq<u8>)
    requires
        forall|i: int| 0 <= i < l.len() ==> wf_asset(#[trigger] l[i]),
    ensures
        spec_read_list(pre + spec_enc_list(l) + suf, pre.len() as int, l.len()) == Some(
            (l, pre.len() as int + spec_enc_list(l).len() as int),
        ),
    decreases l.len(),
{
    let b = pre + spec_enc_list(l) + suf;
    if l.len() == 0 {
        assert(b =~= pre + suf);
        assert(spec_read_list(b, pre.len() as int, 0) == Some(
            (Seq::<EmoteResponseV>::empty(), pre.len() as int),
        ));
        assert(l =~= Seq::<EmoteResponseV>::empty());
    } else {
        let head = l[0];
        let tail = l.drop_first();
        assert(b =~= pre + spec_enc_asset(head) + (spec_enc_list(tail) + suf));
        lemma_read_asset(pre, head, spec_enc_list(tail) + suf);
        let p1 = pre + spec_enc_asset(head);
        assert(b =~= p1 + spec_enc_list(tail) + suf);
        assert(forall|i: int| 0 <= i < tail.len() ==> wf_asset(#[trigger] tail[i]));
        lemma_read_list(p1, tail, suf);
        assert(seq![head] + tail =~= l);
    }
}

/// The view of an optional string.
pub open spec fn opt_string_view(o: &Option<String>) -> Option<Seq<char>> {
    match o {
        Some(s) => Some(s@),
        None => None,
    }
}

/// The view of an optional signed 32-bit value.
pub open spec fn opt_i32_view(o: &Option<i32>) -> Option<int> {
    match o {
        Some(v) => Some(*v as int),
        None => None,
    }
}

fn push_opt_str(out: &mut Vec<u8>, o: &Option<String>)
    requires
        o matches Some(s) ==> wf_str(s@),
    ensures
        final(out)@ == old(out)@ + spec_enc_opt_str(opt_string_view(o)),
{
    proof {
        reveal(spec_enc_opt_str);
    }
    match o {
        None => {
            out.push(0u8);
            proof {
                assert(out@ =~= old(out)@ + spec_enc_opt_str(opt_string_view(o)));
            }
        },
        Some(s) => {
            out.push(1u8);
            push_str(out, s);
            proof {
                assert(out@ =~= old(out)@ + spec_enc_opt_str(opt_string_view(o)));
            }
        },
    }
}

fn push_opt_bool(out: &mut Vec<u8>, o: Option<bool>)
    ensures
        final(out)@ == old(out)@ + spec_enc_opt_bool(o),
{
    proof {
        reveal(spec_enc_opt_bool);
    }
    match o {
        None => {
            out.push(0u8);
            proof {
                assert(out@ =~= old(out)@ + spec_enc_opt_bool(o));
            }
        },
        Some(v) => {
            out.push(1u8);
            if v {
                out.push(1u8);
            } else {
                out.push(0u8);
            }
            proof {
                assert(out@ =~= old(out)@ + spec_enc_opt_bool(o));
            }
        },
    }
}

fn push_opt_i32(out: &mut Vec<u8>, o: &Option<i32>)
    ensures
        final(out)@ == old(out)@ + spec_enc_opt_i32(opt_i32_view(o)),
{
    proof {
        reveal(spec_enc_opt_i32);
    }
    match o {
        None => {
            out.push(0u8);
            proof {
                assert(out@ =~= old(out)@ + spec_enc_opt_i32(opt_i32_view(o)));
            }
        },
        Some(v) => {
            out.push(1u8);
            let v = *v;
            let u: u32 = if v >= 0 {
                v as u32
            } else {
                ((v as i64) + 4294967296i64) as u32
            };
            proof {
                assert(u as int == spec_to_u32(v as int));
            }
            push_u32(out, u);
            proof {
                assert(out@ =~= old(out)@ + spec_enc_opt_i32(opt_i32_view(o)));
            }
        },
    }
}

#[verifier::rlimit(100)]
#[verifier::spinoff_prover]
fn push_asset(out: &mut Vec<u8>, a: &EmoteResponse)
    requires
        wf_asset(a@),
    ensures
        final(out)@ == old(out)@ + spec_enc_asset(a@),
{
    push_str(out, &a.file_name);
    push_str(out, &a.url);
    push_str(out, &a.emote_id);
    push_str(out, &a.emote_name);
    push_opt_str(out, &a.owner);
    push_opt_bool(out, a.animated);
    push_opt_i32(out, &a.scale);
    push_opt_str(out, &a.mime);
    proof {
        assert(out@ =~= old(out)@ + spec_enc_asset(a@));
    }
}

fn string_small(s: &String) -> (r: bool)
    ensures
        r == wf_str(s@),
{
    let bytes = s.as_str().as_bytes_vec();
    (bytes.len() as u64) < 4294967296u64
}

/// Whether an asset list fits the serialized format; in practice only a
/// list of absurd size does not.
pub fn assets_encodable(v: &Vec<EmoteResponse>) -> (r: bool)
    ensures
        r == wf_assets(v.deep_view()),
{
    if (v.len() as u64) >= 4294967296u64 {
        return false;
    }
    let mut i: usize = 0;
    while i < v.len()
        invariant
            v.deep_view().len() == v.len(),
            i <= v.len(),
            v.deep_view().len() < 4294967296,
            forall|j: int| 0 <= j < i ==> wf_asset(#[trigger] v.deep_view()[j]),
        decreases v.len() - i,
    {
        let a = &v[i];
        let ok = string_small(&a.file_name) && string_small(&a.url) && string_small(&a.emote_id)
            && string_small(&a.emote_name) && (match &a.owner {
            Some(s) => string_small(s),
            None => true,
        }) && (match &a.mime {
            Some(s) => string_small(s),
            None => true,
        });
        proof {
            assert(a@ == v.deep_view()[i as int]);
        }
        if !ok {
            proof {
                assert(!wf_asset(a@));
            }
            return false;
        }
        proof {
            assert(wf_asset(a@));
        }
        i += 1;
    }
    true
}

/// Serializes an asset list.
pub fn encode_assets(v: &Vec<EmoteResponse>) -> (r: Vec<u8>)
    requires
        wf_assets(v.deep_view()),
    ensures
        r@ == spec_enc_assets(v.deep_view()),
{
    let mut out: Vec<u8> = Vec::new();
    push_u32(&mut out, v.len() as u32);
    let mut i: usize = 0;
    while i < v.len()
        invariant
            wf_assets(v.deep_view()),
            v.deep_view().len() == v.len(),
            i <= v.len(),
            out@ == spec_le32(v.deep_view().len() as int) + spec_enc_list(
                v.deep_view().subrange(0, i as int),
            ),
        decreases v.len() - i,
    {
        push_asset(&mut out, &v[i]);
        proof {
            lemma_enc_list_snoc(v.deep_view().subrange(0, i as int), v.deep_view()[i as int]);
            assert(v.deep_view().subrange(0, i + 1 as int) =~= v.deep_view().subrange(
                0,
                i as int,
            ).push(v.deep_view()[i as int]));
            assert(out@ =~= spec_le32(v.deep_view().len() as int) + spec_enc_list(
                v.deep_view().subrange(0, i + 1 as int),
            ));
        }
        i += 1;
    }
    proof {
        assert(v.deep_view().subrange(0, v.deep_view().len() as int) =~= v.deep_view());
    }
    out
}

fn read_u8(b: &Vec<u8>, i: usize) -> (r: Option<(u8, usize)>)
    ensures
        match r {
            Some((x, j)) => spec_read_u8(b@, i as int) == Some((x, j as int)),
            None => spec_read_u8(b@, i as int) is None,
        },
{
    if i < b.len() {
        Some((b[i], i + 1))
    } else {
        None
    }
}

fn read_opt_str(b: &Vec<u8>, i: usize) -> (r: Option<(Option<String>, usize)>)
    ensures
        match r {
            Some((o, j)) => spec_read_opt_str(b@, i as int) == Some((opt_string_view(&o), j as int)),
            None => spec_read_opt_str(b@, i as int) is None,
        },
{
    let (tag, j) = match read_u8(b, i) {
        Some(p) => p,
        None => {
            return None;
        },
    };
    if tag == 0 {
        Some((None, j))
    } else if tag == 1 {
        match read_str(b, j) {
            Some((s, k)) => Some((Some(s), k)),
            None => None,
        }
    } else {
        None
    }
}

fn read_opt_bool(b: &Vec<u8>, i: usize) -> (r: Option<(Option<bool>, usize)>)
    ensures
        match r {
            Some((o, j)) => spec_read_opt_bool(b@, i as int) == Some((o, j as int)),
            None => spec_read_opt_bool(b@, i as int) is None,
        },
{
    let (tag, j) = match read_u8(b, i) {
        Some(p) => p,
        None => {
            return None;
        },
    };
    if tag == 0 {
        Some((None, j))
    } else if tag == 1 {
        match read_u8(b, j) {
            Some((v, k)) => {
                if v == 0 {
                    Some((Some(false), k))
                } else if v == 1 {
                    Some((Some(true), k))
                } else {
                    None
                }
            },
            None => None,
        }
    } else {
        None
    }
}

fn read_opt_i32(b: &Vec<u8>, i: usize) -> (r: Option<(Option<i32>, usize)>)
    ensures
        match r {
            Some((o, j)) => spec_read_opt_i32(b@, i as int) == Some((opt_i32_view(&o), j as int)),
            None => spec_read_opt_i32(b@, i as int) is None,
        },
{
    let (tag, j) = match read_u8(b, i) {
        Some(p) => p,
        None => {
            return None;
        },
    };
    if tag == 0 {
        Some((None, j))
    } else if tag == 1 {
        match read_u32(b, j) {
            Some((n, k)) => {
                let v: i32 = if n >= 2147483648u32 {
                    ((n as i64) - 4294967296i64) as i32
                } else {
                    n as i32
                };
                Some((Some(v), k))
            },
            None => None,
        }
    } else {
        None
    }
}

#[verifier::rlimit(100)]
#[verifier::spinoff_prover]
fn read_asset(b: &Vec<u8>, i: usize) -> (r: Option<(EmoteResponse, usize)>)
    ensures
        match r {
            Some((a, j)) => spec_read_asset(b@, i as int) == Some((a@, j as int)),
            None => spec_read_asset(b@, i as int) is None,
        },
{
    let (file_name, i1) = match read_str(b, i) {
        Some(p) => p,
        None => {
            return None;
        },
    };
    let (url, i2) = match read_str(b, i1) {
        Some(p) => p,
        None => {
            return None;
        },
    };
    let (emote_id, i3) = match read_str(b, i2) {
        Some(p) => p,
        None => {
            return None;
        },
    };
    let (emote_name, i4) = match read_str(b, i3) {
        Some(p) => p,
        None => {
            return None;
        },
    };
    let (owner, i5) = match read_opt_str(b, i4) {
        Some(p) => p,
        None => {
            return None;
        },
    };
    let (animated, i6) = match read_opt_bool(b, i5) {
        Some(p) => p,
        None => {
            return None;
        },
    };
    let (scale, i7) = match read_opt_i32(b, i6) {
        Some(p) => p,
        None => {
            return None;
        },
    };
    let (mime, i8) = match read_opt_str(b, i7) {
        Some(p) => p,
        None => {
            return None;
        },
    };
    Some(
        (
            EmoteResponse {
                file_name,
                url,
                emote_id,
                emote_name,
                owner,
                animated,
                scale,
                mime,
            },
            i8,
        ),
    )
}

/// The remainder of a list read, with what was already read in front.
pub open spec fn spec_read_list_cont(
    b: Seq<u8>,
    i: int,
    c: nat,
    acc: Seq<EmoteResponseV>,
) -> Option<(Seq<EmoteResponseV>, int)> {
    match spec_read_list(b, i, c) {
        None => None,
        Some((l, e)) => Some((acc + l, e)),
    }
}

/// Deserializes an asset list; any malformed or trailing byte fails the
/// whole payload.
#[verifier::rlimit(100)]
#[verifier::spinoff_prover]
pub fn decode_assets(b: &Vec<u8>) -> (r: Option<Vec<EmoteResponse>>)
    ensures
        match r {
            Some(v) => spec_read_assets(b@) == Some(v.deep_view()),
            None => spec_read_assets(b@) is None,
        },
{
    let (count, j0) = match read_u32(b, 0) {
        Some(p) => p,
        None => {
            return None;
        },
    };
    let count = count as usize;
    let mut out: Vec<EmoteResponse> = Vec::new();
    let mut i: usize = 0;
    let mut pos: usize = j0;
    while i < count
        invariant
            spec_read_le32(b@, 0) == Some((count as int, j0 as int)),
            i <= count,
            out.deep_view().len() == i,
            spec_read_list_cont(b@, pos as int, (count - i) as nat, out.deep_view())
                == spec_read_list_cont(b@, j0 as int, count as nat, Seq::empty()),
        decreases count - i,
    {
        let ghost acc0 = out.deep_view();
        let ghost pos0 = pos as int;
        let ghost crem = (count - i) as nat;
        let (a, npos) = match read_asset(b, pos) {
            Some(p) => p,
            None => {
                proof {
                    assert(spec_read_list(b@, pos0, crem) is None);
                    assert(spec_read_list_cont(b@, j0 as int, count as nat, Seq::empty()) is None);
                    assert(spec_read_assets(b@) is None);
                }
                return None;
            },
        };
        out.push(a);
        proof {
            assert(out.deep_view() =~= acc0.push(a@));
            assert(spec_read_list(b@, pos0, crem) == match spec_read_list(
                b@,
                npos as int,
                (crem - 1) as nat,
            ) {
                None => None,
                Some((l, e)) => Some((seq![a@] + l, e)),
            });
            match spec_read_list(b@, npos as int, (crem - 1) as nat) {
                Some((l, e)) => {
                    assert(acc0 + (seq![a@] + l) =~= acc0.push(a@) + l);
                },
                None => {},
            }
            assert(spec_read_list_cont(b@, npos as int, (crem - 1) as nat, out.deep_view())
                == spec_read_list_cont(b@, pos0, crem, acc0));
        }
        pos = npos;
        i += 1;
    }
    proof {
        assert(spec_read_list(b@, pos as int, 0) == Some(
            (Seq::<EmoteResponseV>::empty(), pos as int),
        ));
        assert(out.deep_view() + Seq::<EmoteResponseV>::empty() =~= out.deep_view());
        assert(spec_read_list_cont(b@, j0 as int, count as nat, Seq::empty()) == Some(
            (out.deep_view(), pos as int),
        ));
        assert(Seq::<EmoteResponseV>::empty() + spec_read_list(
            b@,
            j0 as int,
            count as nat,
        )->Some_0.0 =~= spec_read_list(b@, j0 as int, count as nat)->Some_0.0);
    }
    if pos == b.len() {
        Some(out)
    } else {
        None
    }
}

/// Decoding an encoded payload yields the payload back: the round trip of
/// the serialized format is the identity on well-formed asset lists.
#[verifier::rlimit(100)]
#[verifier::spinoff_prover]
pub proof fn lemma_codec_round_trip(l: Seq<EmoteResponseV>)
    requires
        wf_assets(l),
    ensures
        spec_read_assets(spec_enc_assets(l)) == Some(l),
{
    let b = spec_enc_assets(l);
    assert(b =~= Seq::empty() + spec_le32(l.len() as int) + spec_enc_list(l));
    lemma_read_le32(Seq::empty(), l.len() as int, spec_enc_list(l));
    assert(spec_read_le32(b, 0) == Some((l.len() as int, 4int)));
    assert(b =~= spec_le32(l.len() as int) + spec_enc_list(l) + Seq::empty());
    lemma_read_list(spec_le32(l.len() as int), l, Seq::empty());
    assert(spec_read_list(b, 4, l.len()) == Some((l, b.len() as int)));
}

} // verus!

