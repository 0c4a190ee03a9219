//! Near-duplicate detection with a MinHash LSH pipeline.
//!
//! Content is tokenized into hashed tokens, then k-shingles (sliding
//! windows) form a set per file. A MinHash signature estimates Jaccard
//! similarity cheaply, and Locality-Sensitive Hashing banding buckets
//! candidate pairs so only promising pairs are compared exactly. Files whose
//! Jaccard similarity reaches the threshold are grouped; the first member in
//! priority order represents its group. Hashing is FNV-1a with fixed seeds,
//! so identical input gives identical output everywhere.

use vstd::prelude::*;
use vstd::utf8::encode_utf8;
use vstd::relations::sorted_by;
use crate::text::{alphanumeric_char, chars_of, decimal, decimal_string, is_alphanumeric, is_whitespace, lower_char, lower_char_exec, push_str_chars, string_from_chars, whitespace_char};

verus! {

/// Tunable knobs for near-duplicate detection.
#[derive(Debug, Clone, Copy)]
pub struct DedupConfig {
    /// Sliding-window size in tokens used to build shingles.
    pub shingle_size: usize,
    /// Number of MinHash functions per signature.
    pub signature_count: usize,
    /// Number of signature rows hashed into each LSH band.
    pub band_size: usize,
    /// Deterministic cap on shingles retained per file.
    pub max_shingles_per_file: usize,
    /// Minimum Jaccard similarity, in millionths, to treat files as
    /// duplicates (`800000` is `0.8`).
    pub similarity_threshold_millionths: u64,
}

impl Default for DedupConfig {
    fn default() -> (r: Self)
        ensures
            r.shingle_size == 5,
            r.signature_count == 64,
            r.band_size == 4,
            r.max_shingles_per_file == 512,
            r.similarity_threshold_millionths == 800000,
    {
        DedupConfig {
            shingle_size: 5,
            signature_count: 64,
            band_size: 4,
            max_shingles_per_file: 512,
            similarity_threshold_millionths: 800000,
        }
    }
}

/// The FNV-1a offset basis.
pub open spec fn fnv_offset() -> u64 {
    0xcbf2_9ce4_8422_2325u64
}

/// The FNV-1a prime.
pub open spec fn fnv_prime() -> u64 {
    0x0000_0100_0000_01b3u64
}

/// FNV-1a 64-bit hash of a byte sequence.
pub open spec fn fnv(bytes: Seq<u8>) -> u64
    decreases bytes.len(),
{
    if bytes.len() == 0 {
        fnv_offset()
    } else {
        (fnv(bytes.drop_last()) ^ (bytes.last() as u64)).wrapping_mul(fnv_prime())
    }
}

/// FNV-1a 64-bit hash. Deterministic, seedable and allocation-free.
pub fn fnv1a_64(bytes: &[u8]) -> (r: u64)
    ensures
        r == fnv(bytes@),
{
    let mut hash: u64 = 0xcbf2_9ce4_8422_2325u64;
    let mut i: usize = 0;
    assert(bytes@.take(0) =~= Seq::<u8>::empty());
    while i < bytes.len()
        invariant
            i <= bytes.len(),
            hash == fnv(bytes@.take(i as int)),
        decreases bytes.len() - i,
    {
        assert(bytes@.take(i + 1).drop_last() =~= bytes@.take(i as int));
        hash = hash ^ (bytes[i] as u64);
        hash = hash.wrapping_mul(0x0000_0100_0000_01b3u64);
        i = i + 1;
    }
    assert(bytes@.take(bytes@.len() as int) =~= bytes@);
    hash
}

/// The hash of a text: FNV-1a of its UTF-8 bytes.
pub open spec fn text_hash(s: Seq<char>) -> u64 {
    fnv(encode_utf8(s))
}

/// The hash of a text.
fn hash_chars(s: &[char]) -> (r: u64)
    ensures
        r == text_hash(s@),
{
    let st = string_from_chars(s);
    let b = st.as_str().as_bytes();
    fnv1a_64(b)
}

/// Whether a character belongs to a word token (alphanumeric or `_`).
pub open spec fn word_char(c: char) -> bool {
    alphanumeric_char(c) || c == '_'
}

/// The token hashes found so far in `s` and the word being read: a word
/// (lowercased) ends at a non-word character and is hashed whole; a
/// non-word character that is not whitespace is hashed alone.
pub open spec fn token_state(s: Seq<char>) -> (Seq<u64>, Seq<char>)
    decreases s.len(),
{
    if s.len() == 0 {
        (Seq::empty(), Seq::empty())
    } else {
        let p = token_state(s.drop_last());
        let c = s.last();
        if word_char(c) {
            (p.0, p.1.push(lower_char(c)))
        } else {
            let h1 = if p.1.len() > 0 {
                p.0.push(text_hash(p.1))
            } else {
                p.0
            };
            if whitespace_char(c) {
                (h1, Seq::empty())
            } else {
                (h1.push(text_hash(seq![c])), Seq::empty())
            }
        }
    }
}

/// The token hashes of a text.
pub open spec fn token_hashes_spec(s: Seq<char>) -> Seq<u64> {
    let p = token_state(s);
    if p.1.len() > 0 {
        p.0.push(text_hash(p.1))
    } else {
        p.0
    }
}

/// Hashes the token stream of `content`: words (identifiers and numbers,
/// lowercased) whole, and each significant punctuation character alone.
pub fn token_hashes(content: &str) -> (r: Vec<u64>)
    ensures
        r@ == token_hashes_spec(content@),
{
    let cs = chars_of(content);
    let mut out: Vec<u64> = Vec::new();
    let mut buffer: Vec<char> = Vec::new();
    let mut i: usize = 0;
    assert(cs@.take(0) =~= Seq::<char>::empty());
    while i < cs.len()
        invariant
            i <= cs.len(),
            cs@ == content@,
            (out@, buffer@) == token_state(cs@.take(i as int)),
        decreases cs.len() - i,
    {
        let ch = cs[i];
        assert(cs@.take(i + 1).drop_last() =~= cs@.take(i as int));
        if is_alphanumeric(ch) || ch == '_' {
            buffer.push(lower_char_exec(ch));
        } else {
            if buffer.len() > 0 {
                out.push(hash_chars(buffer.as_slice()));
                buffer = Vec::new();
            }
            if !is_whitespace(ch) {
                let one = [ch];
                assert(one@ =~= seq![ch]);
                out.push(hash_chars(&one));
            } else {
                buffer = Vec::new();
            }
            assert(buffer@ =~= Seq::<char>::empty());
        }
        i = i + 1;
    }
    assert(cs@.take(cs@.len() as int) =~= cs@);
    if buffer.len() > 0 {
        out.push(hash_chars(buffer.as_slice()));
    }
    out
}

/// `x` rotated left by `n` bits (`0 < n < 64`).
pub open spec fn rotl(x: u64, n: u64) -> u64 {
    (x << n) | (x >> (64 - n) as u64)
}

/// A shingle window combined into one value: starting from its first
/// hash, each next hash is mixed in by a rotation by 9 and an xor.
pub open spec fn combine_spec(w: Seq<u64>) -> u64
    decreases w.len(),
{
    if w.len() <= 1 {
        if w.len() == 1 { w[0] } else { 0 }
    } else {
        rotl(combine_spec(w.drop_last()), 9) ^ w.last()
    }
}

/// Combines a shingle window into a single value.
pub fn combine_shingles(window: &[u64]) -> (r: u64)
    requires
        window@.len() >= 1,
    ensures
        r == combine_spec(window@),
{
    let mut hash = window[0];
    let mut i: usize = 1;
    assert(window@.take(1) =~= seq![window@[0]]);
    while i < window.len()
        invariant
            1 <= i <= window.len(),
            hash == combine_spec(window@.take(i as int)),
        decreases window.len() - i,
    {
        assert(window@.take(i + 1).drop_last() =~= window@.take(i as int));
        hash = ((hash << 9u64) | (hash >> 55u64)) ^ window[i];
        i = i + 1;
    }
    assert(window@.take(window@.len() as int) =~= window@);
    hash
}

/// The combined values of every window of `k` consecutive token hashes.
pub open spec fn window_values(tokens: Seq<u64>, k: nat) -> Seq<u64> {
    Seq::new((tokens.len() - k + 1) as nat, |i: int| combine_spec(tokens.subrange(i, i + k)))
}

/// Whether a sequence is strictly increasing.
pub open spec fn increasing(s: Seq<u64>) -> bool {
    forall|i: int, j: int| 0 <= i < j < s.len() ==> s[i] < s[j]
}

/// The position where `x` belongs in the strictly increasing `v`, and
/// whether it is already there.
fn search_sorted(v: &Vec<u64>, x: u64) -> (r: (usize, bool))
    requires
        increasing(v@),
    ensures
        r.0 <= v@.len(),
        forall|i: int| 0 <= i < r.0 ==> v@[i] < x,
        r.1 ==> r.0 < v@.len() && v@[r.0 as int] == x,
        !r.1 ==> forall|i: int| r.0 <= i < v@.len() ==> v@[i] > x,
{
    let mut lo: usize = 0;
    let mut hi: usize = v.len();
    while lo < hi
        invariant
            lo <= hi <= v.len(),
            increasing(v@),
            forall|i: int| 0 <= i < lo ==> v@[i] < x,
            forall|i: int| hi <= i < v@.len() ==> v@[i] >= x,
        decreases hi - lo,
    {
        let mid = lo + (hi - lo) / 2;
        if v[mid] < x {
            lo = mid + 1;
        } else {
            hi = mid;
        }
    }
    if lo < v.len() && v[lo] == x {
        (lo, true)
    } else {
        (lo, false)
    }
}

/// Inserts `x` into a strictly increasing vector unless it is there.
fn insert_unique(v: &mut Vec<u64>, x: u64)
    requires
        increasing(old(v)@),
    ensures
        increasing(final(v)@),
        final(v)@.to_set() == old(v)@.to_set().insert(x),
{
    let ghost old_v = v@;
    let (p, found) = search_sorted(v, x);
    if found {
        assert(old_v.to_set().insert(x) =~= old_v.to_set()) by {
            assert(old_v.contains(x));
        }
    } else {
        v.insert(p, x);
        assert(v@ == old_v.insert(p as int, x));
        assert forall|i: int, j: int| 0 <= i < j < v@.len() implies v@[i] < v@[j] by {
            if j < p {
            } else if j == p {
            } else if i < p {
                assert(v@[j] == old_v[j - 1]);
            } else if i == p {
                assert(v@[j] == old_v[j - 1]);
            } else {
                assert(v@[i] == old_v[i - 1]);
                assert(v@[j] == old_v[j - 1]);
            }
        }
        assert forall|y: u64| v@.to_set().contains(y) <==> old_v.to_set().insert(x).contains(y) by {
            if v@.contains(y) {
                let q = choose|q: int| 0 <= q < v@.len() && v@[q] == y;
                if q < p {
                    assert(old_v[q] == y);
                } else if q > p {
                    assert(old_v[q - 1] == y);
                }
            }
            if old_v.contains(y) {
                let q = choose|q: int| 0 <= q < old_v.len() && old_v[q] == y;
                if q < p {
                    assert(v@[q] == y);
                } else {
                    assert(v@[q + 1] == y);
                }
            }
            if y == x {
                assert(v@[p as int] == x);
            }
        }
        assert(v@.to_set() =~= old_v.to_set().insert(x));
    }
}

/// `a / b` rounded up.
pub open spec fn ceil_div(a: nat, b: nat) -> nat {
    (a / b + if a % b != 0 { 1nat } else { 0nat }) as nat
}

proof fn lemma_ceil_div_fits(a: nat, b: nat)
    requires
        b >= 1,
        a <= usize::MAX,
    ensures
        ceil_div(a, b) <= a || a == 0,
        ceil_div(a, b) <= usize::MAX,
        a / b + 1 <= usize::MAX || a % b == 0,
{
    assert(a / b <= a) by (nonlinear_arith)
        requires
            b >= 1,
    ;
    if a == 0 {
        assert(a % b == 0);
    }
    if a > 0 && a % b != 0 {
        assert(b >= 2);
        assert(a / b < a) by (nonlinear_arith)
            requires
                b >= 2,
                a > 0,
        ;
    }
}

proof fn lemma_sample_len(len: nat, cap: nat, stride: nat)
    requires
        cap >= 1,
        len > cap,
        stride == ceil_div(len, cap),
    ensures
        stride >= 1,
        ceil_div(len, stride) <= cap,
{
    let q = len / cap;
    let r = len % cap;
    assert(len == q * cap + r && 0 <= r < cap) by (nonlinear_arith)
        requires
            cap >= 1,
            q == len / cap,
            r == len % cap,
    ;
    assert(stride * cap >= len) by (nonlinear_arith)
        requires
            len == q * cap + r,
            0 <= r < cap,
            stride == q + if r != 0 { 1nat } else { 0nat },
    ;
    assert(stride >= 1) by (nonlinear_arith)
        requires
            stride * cap >= len,
            len > cap,
            cap >= 1,
    ;
    let q2 = len / stride;
    let r2 = len % stride;
    assert(len == q2 * stride + r2 && 0 <= r2 < stride) by (nonlinear_arith)
        requires
            stride >= 1,
            q2 == len / stride,
            r2 == len % stride,
    ;
    assert(q2 <= cap) by (nonlinear_arith)
        requires
            len == q2 * stride + r2,
            0 <= r2,
            stride * cap >= len,
            stride >= 1,
    ;
    if r2 != 0 {
        assert(q2 < cap) by (nonlinear_arith)
            requires
                len == q2 * stride + r2,
                0 < r2 < stride,
                stride * cap >= len,
                stride >= 1,
        ;
    }
}

proof fn lemma_sample_index(len: nat, stride: nat, k: nat)
    requires
        stride >= 1,
        k < ceil_div(len, stride),
    ensures
        k * stride < len,
{
    let q = len / stride;
    let r = len % stride;
    assert(len == q * stride + r) by (nonlinear_arith)
        requires
            stride >= 1,
            q == len / stride,
            r == len % stride,
    ;
    assert(0 <= r < stride) by (nonlinear_arith)
        requires
            stride >= 1,
            r == len % stride,
    ;
    if r != 0 {
        assert(k <= q);
        assert(k * stride <= q * stride) by (nonlinear_arith)
            requires
                k <= q,
        ;
    } else {
        assert(k + 1 <= q);
        assert((k + 1) * stride <= q * stride) by (nonlinear_arith)
            requires
                k + 1 <= q,
        ;
        assert((k + 1) * stride == k * stride + stride) by (nonlinear_arith);
    }
}

/// Every `stride`-th element of `s`, starting with the first.
pub open spec fn sample(s: Seq<u64>, stride: nat) -> Seq<u64> {
    Seq::new(ceil_div(s.len(), stride), |i: int| s[i * stride])
}

/// The shingle set of a text, as a strictly increasing sequence `r`: empty
/// when there are fewer tokens than a window; otherwise the distinct window
/// values, and when they are more than the cap, every `ceil(n / cap)`-th of
/// them in increasing order.
pub open spec fn shingles_ok(r: Seq<u64>, content: Seq<char>, k: nat, cap: nat) -> bool {
    let tokens = token_hashes_spec(content);
    if tokens.len() < k {
        r.len() == 0
    } else {
        exists|all: Seq<u64>|
            #![trigger increasing(all)]
            increasing(all) && all.to_set() == window_values(tokens, k).to_set() && r == (if all.len() > cap {
                sample(all, ceil_div(all.len(), cap))
            } else {
                all
            })
    }
}

/// Builds the bounded, distinct shingle set of `content`.
pub fn shingle_set(content: &str, shingle_size: usize, max_shingles: usize) -> (r: Vec<u64>)
    requires
        shingle_size > 0,
        max_shingles > 0,
    ensures
        increasing(r@),
        shingles_ok(r@, content@, shingle_size as nat, max_shingles as nat),
        r@.len() <= max_shingles,
{
    let tokens = token_hashes(content);
    if tokens.len() < shingle_size {
        return Vec::new();
    }
    let ghost wv = window_values(tokens@, shingle_size as nat);
    let mut all: Vec<u64> = Vec::new();
    let n = tokens.len() - shingle_size + 1;
    let mut i: usize = 0;
    assert(wv.take(0).to_set() =~= Set::<u64>::empty());
    assert(all@.to_set() =~= Set::<u64>::empty());
    while i < n
        invariant
            i <= n,
            n == tokens@.len() - shingle_size + 1,
            tokens@.len() >= shingle_size,
            shingle_size > 0,
            wv == window_values(tokens@, shingle_size as nat),
            increasing(all@),
            all@.to_set() == wv.take(i as int).to_set(),
        decreases n - i,
    {
        assert(i + shingle_size <= tokens@.len());
        assert(tokens@.len() == tokens.len());
        let w = crate::paths::slice_u64(tokens.as_slice(), i, i + shingle_size);
        let v = combine_shingles(w.as_slice());
        assert(v == wv[i as int]);
        insert_unique(&mut all, v);
        proof {
            assert(wv.take(i + 1) =~= wv.take(i as int).push(v));
            crate::graph::files::lemma_push_to_set(wv.take(i as int), v);
        }
        i = i + 1;
    }
    assert(wv.take(wv.len() as int) =~= wv);
    if all.len() > max_shingles {
        proof {
            lemma_ceil_div_fits(all@.len(), max_shingles as nat);
        }
        let stride: usize = all.len() / max_shingles + if all.len() % max_shingles != 0 { 1 } else { 0 };
        assert(stride == ceil_div(all@.len(), max_shingles as nat));
        assert(stride >= 1) by (nonlinear_arith)
            requires
                all@.len() > max_shingles,
                max_shingles > 0,
                stride >= all@.len() / (max_shingles as nat),
        ;
        proof {
            lemma_ceil_div_fits(all@.len(), stride as nat);
        }
        let count: usize = all.len() / stride + if all.len() % stride != 0 { 1 } else { 0 };
        let ghost sm = sample(all@, stride as nat);
        assert(count == sm.len());
        let mut picked: Vec<u64> = Vec::new();
        let mut k: usize = 0;
        while k < count
            invariant
                stride >= 1,
                count == sm.len(),
                sm == sample(all@, stride as nat),
                picked@ == sm.take(k as int),
                k <= count,
            decreases count - k,
        {
            proof {
                lemma_sample_index(all@.len(), stride as nat, k as nat);
            }
            assert((k as nat) * (stride as nat) < all@.len());
            assert(all@.len() == all.len());
            let j = k * stride;
            picked.push(all[j]);
            assert(picked@ =~= sm.take(k + 1));
            k = k + 1;
        }
        assert(picked@ =~= sm);
        proof {
            lemma_sample_len(all@.len(), max_shingles as nat, stride as nat);
        }
        assert(increasing(picked@)) by {
            assert forall|a: int, b: int| 0 <= a < b < picked@.len() implies picked@[a] < picked@[b] by {
                assert(a * stride < b * stride) by (nonlinear_arith)
                    requires
                        a < b,
                        stride >= 1,
                ;
                lemma_sample_index(all@.len(), stride as nat, b as nat);
            }
        }
        picked
    } else {
        all
    }
}

/// The salt of MinHash function `i`: the hash of `ink-signature-salt-i`.
pub open spec fn salt_spec(i: nat) -> u64 {
    text_hash("ink-signature-salt-"@ + decimal(i))
}

/// Deterministic per-hash-function salts.
pub fn signature_salts(count: usize) -> (r: Vec<u64>)
    ensures
        r@.len() == count,
        forall|i: int| 0 <= i < count ==> #[trigger] r@[i] == salt_spec(i as nat),
{
    let mut out: Vec<u64> = Vec::new();
    let mut i: usize = 0;
    while i < count
        invariant
            i <= count,
            out@.len() == i,
            forall|k: int| 0 <= k < i ==> #[trigger] out@[k] == salt_spec(k as nat),
        decreases count - i,
    {
        let mut v: Vec<char> = Vec::new();
        push_str_chars(&mut v, "ink-signature-salt-");
        push_str_chars(&mut v, decimal_string(i as u64).as_str());
        assert(v@ =~= "ink-signature-salt-"@ + decimal(i as nat));
        out.push(hash_chars(v.as_slice()));
        i = i + 1;
    }
    out
}

/// The little-endian bytes of `x`.
pub open spec fn le_bytes(x: u64) -> Seq<u8> {
    seq![
        (x & 0xff) as u8,
        ((x >> 8u64) & 0xff) as u8,
        ((x >> 16u64) & 0xff) as u8,
        ((x >> 24u64) & 0xff) as u8,
        ((x >> 32u64) & 0xff) as u8,
        ((x >> 40u64) & 0xff) as u8,
        ((x >> 48u64) & 0xff) as u8,
        ((x >> 56u64) & 0xff) as u8,
    ]
}

/// The hash of a shingle under a salt.
pub open spec fn salted(sh: u64, salt: u64) -> u64 {
    fnv(le_bytes(sh ^ salt))
}

fn salted_exec(sh: u64, salt: u64) -> (r: u64)
    ensures
        r == salted(sh, salt),
{
    let x = sh ^ salt;
    let b: [u8; 8] = [
        (x & 0xff) as u8,
        ((x >> 8u64) & 0xff) as u8,
        ((x >> 16u64) & 0xff) as u8,
        ((x >> 24u64) & 0xff) as u8,
        ((x >> 32u64) & 0xff) as u8,
        ((x >> 40u64) & 0xff) as u8,
        ((x >> 48u64) & 0xff) as u8,
        ((x >> 56u64) & 0xff) as u8,
    ];
    assert(b@ =~= le_bytes(x));
    fnv1a_64(&b)
}

/// The least salted hash of the shingles (`0` for none).
pub open spec fn min_hash(sh: Seq<u64>, salt: u64) -> u64
    decreases sh.len(),
{
    if sh.len() == 0 {
        0
    } else if sh.len() == 1 {
        salted(sh[0], salt)
    } else {
        let m = min_hash(sh.drop_last(), salt);
        let h = salted(sh.last(), salt);
        if h < m { h } else { m }
    }
}

/// A MinHash signature: for each hash function, the least salted hash over
/// the shingles.
pub fn signature(shingles: &Vec<u64>, salts: &Vec<u64>, count: usize) -> (r: Vec<u64>)
    requires
        count <= salts@.len(),
    ensures
        r@.len() == count,
        forall|i: int| 0 <= i < count ==> #[trigger] r@[i] == min_hash(shingles@, salts@[i]),
{
    let mut out: Vec<u64> = Vec::new();
    let mut i: usize = 0;
    while i < count
        invariant
            i <= count,
            count <= salts@.len(),
            out@.len() == i,
            forall|k: int| 0 <= k < i ==> #[trigger] out@[k] == min_hash(shingles@, salts@[k]),
        decreases count - i,
    {
        let salt = salts[i];
        let mut m: u64 = 0;
        let mut j: usize = 0;
        assert(shingles@.take(0) =~= Seq::<u64>::empty());
        while j < shingles.len()
            invariant
                j <= shingles.len(),
                m == min_hash(shingles@.take(j as int), salt),
            decreases shingles.len() - j,
        {
            let h = salted_exec(shingles[j], salt);
            assert(shingles@.take(j + 1).drop_last() =~= shingles@.take(j as int));
            if j == 0 {
                assert(shingles@.take(1)[0] == shingles@[0]);
                m = h;
            } else if h < m {
                m = h;
            }
            j = j + 1;
        }
        assert(shingles@.take(shingles@.len() as int) =~= shingles@);
        out.push(m);
        i = i + 1;
    }
    out
}

/// One LSH band of a signature folded into a key: from `0x811c9dc5`, each
/// value mixed in by a rotation by 11 and an xor.
pub open spec fn band_fold(vs: Seq<u64>) -> u64
    decreases vs.len(),
{
    if vs.len() == 0 {
        0x811c_9dc5u64
    } else {
        rotl(band_fold(vs.drop_last()), 11) ^ vs.last()
    }
}

/// The key of band `band` of a signature.
pub open spec fn band_key_spec(sig: Seq<u64>, band: nat, band_size: nat) -> u64 {
    band_fold(sig.subrange((band * band_size) as int, (band * band_size + band_size) as int))
}

/// Combines one LSH band of a signature into a bucket key.
pub fn band_key(signature: &[u64], band: usize, band_size: usize) -> (r: u64)
    requires
        (band + 1) * band_size <= signature@.len(),
    ensures
        r == band_key_spec(signature@, band as nat, band_size as nat),
{
    assert(band * band_size + band_size == (band + 1) * band_size) by (nonlinear_arith);
    assert(signature@.len() == signature.len());
    let start = band * band_size;
    let ghost vs = signature@.subrange(start as int, start + band_size);
    let mut hash: u64 = 0x811c_9dc5u64;
    let mut i: usize = 0;
    assert(vs.take(0) =~= Seq::<u64>::empty());
    while i < band_size
        invariant
            i <= band_size,
            start + band_size <= signature@.len(),
            signature@.len() == signature.len(),
            vs == signature@.subrange(start as int, start + band_size),
            hash == band_fold(vs.take(i as int)),
        decreases band_size - i,
    {
        assert(vs.take(i + 1).drop_last() =~= vs.take(i as int));
        assert(vs.take(i + 1).last() == signature@[start + i]);
        hash = ((hash << 11u64) | (hash >> 53u64)) ^ signature[start + i];
        i = i + 1;
    }
    assert(vs.take(band_size as int) =~= vs);
    hash
}

/// Whether a value is in `b`.
pub open spec fn in_seq(b: Seq<u64>) -> spec_fn(u64) -> bool {
    |x: u64| b.contains(x)
}

/// The number of shingles two sets share.
pub open spec fn shared_count(a: Seq<u64>, b: Seq<u64>) -> nat {
    a.filter(in_seq(b)).len()
}

/// The number of shingles in either set.
pub open spec fn union_count(a: Seq<u64>, b: Seq<u64>) -> int {
    a.len() + b.len() - shared_count(a, b)
}

/// The Jaccard similarity of two shingle sets as (shared, union) counts;
/// a union of zero stands for similarity zero.
pub fn jaccard(a: &Vec<u64>, b: &Vec<u64>) -> (r: (usize, usize))
    requires
        increasing(b@),
        a@.len() + b@.len() <= usize::MAX,
    ensures
        r.0 == shared_count(a@, b@),
        r.1 == union_count(a@, b@),
{
    let mut shared: usize = 0;
    let mut i: usize = 0;
    assert(a@.take(0).filter(in_seq(b@)) =~= Seq::<u64>::empty());
    while i < a.len()
        invariant
            i <= a.len(),
            increasing(b@),
            shared == a@.take(i as int).filter(in_seq(b@)).len(),
            shared <= i,
        decreases a.len() - i,
    {
        let (p, found) = search_sorted(b, a[i]);
        proof {
            a@.take(i as int).lemma_filter_push(a@[i as int], in_seq(b@));
            assert(a@.take(i + 1) =~= a@.take(i as int).push(a@[i as int]));
            if found {
                assert(b@[p as int] == a@[i as int]);
                assert(b@.contains(a@[i as int]));
            } else {
                assert(!b@.contains(a@[i as int])) by {
                    if b@.contains(a@[i as int]) {
                        let q = choose|q: int| 0 <= q < b@.len() && b@[q] == a@[i as int];
                        if q < p {
                        } else {
                        }
                    }
                }
            }
        }
        if found {
            shared = shared + 1;
        }
        i = i + 1;
    }
    assert(a@.take(a@.len() as int) =~= a@);
    (shared, a.len() + b.len() - shared)
}

/// Whether (shared, union) counts reach a threshold in millionths.
pub open spec fn similar(shared: int, union: int, threshold: u64) -> bool {
    if union == 0 {
        threshold == 0
    } else {
        shared * 1000000 >= threshold * union
    }
}

/// Whether two lists of band keys agree on some band.
pub open spec fn shares_band(ki: Seq<u64>, kj: Seq<u64>) -> bool {
    exists|b: int| 0 <= b < ki.len() && b < kj.len() && ki[b] == kj[b]
}

/// Whether entries `u` and `v` are linked: distinct, sharing an LSH band,
/// and similar enough (the pair taken in index order).
pub open spec fn linked(sh: Seq<Seq<u64>>, keys: Seq<Seq<u64>>, t: u64, u: int, v: int) -> bool {
    let i = if u < v { u } else { v };
    let j = if u < v { v } else { u };
    &&& 0 <= u < sh.len()
    &&& 0 <= v < sh.len()
    &&& u != v
    &&& shares_band(keys[u], keys[v])
    &&& similar(shared_count(sh[i], sh[j]) as int, union_count(sh[i], sh[j]), t)
}

/// `s` and every entry linked to a member of it.
pub open spec fn link_step(sh: Seq<Seq<u64>>, keys: Seq<Seq<u64>>, t: u64, s: Set<int>) -> Set<int> {
    s.union(Set::new(|v: int| exists|u: int| s.contains(u) && #[trigger] linked(sh, keys, t, u, v)))
}

/// The entries at most `m` links away from `start`.
pub open spec fn link_within(sh: Seq<Seq<u64>>, keys: Seq<Seq<u64>>, t: u64, start: int, m: nat) -> Set<int>
    decreases m,
{
    if m == 0 {
        set![start]
    } else {
        link_step(sh, keys, t, link_within(sh, keys, t, start, (m - 1) as nat))
    }
}

/// Whether entry `v` is connected to `start` by links.
pub open spec fn connected(sh: Seq<Seq<u64>>, keys: Seq<Seq<u64>>, t: u64, start: int, v: int) -> bool {
    exists|m: nat| #[trigger] link_within(sh, keys, t, start, m).contains(v)
}

proof fn lemma_connected_step(sh: Seq<Seq<u64>>, keys: Seq<Seq<u64>>, t: u64, start: int, u: int, v: int)
    requires
        connected(sh, keys, t, start, u),
        linked(sh, keys, t, u, v),
    ensures
        connected(sh, keys, t, start, v),
{
    let m = choose|m: nat| #[trigger] link_within(sh, keys, t, start, m).contains(u);
    assert(link_within(sh, keys, t, start, m + 1).contains(v));
}

proof fn lemma_link_closed(sh: Seq<Seq<u64>>, keys: Seq<Seq<u64>>, t: u64, start: int, vset: Set<int>, m: nat)
    requires
        vset.contains(start),
        forall|u: int, v: int| vset.contains(u) && #[trigger] linked(sh, keys, t, u, v) ==> vset.contains(v),
    ensures
        link_within(sh, keys, t, start, m).subset_of(vset),
    decreases m,
{
    if m > 0 {
        lemma_link_closed(sh, keys, t, start, vset, (m - 1) as nat);
        let prev = link_within(sh, keys, t, start, (m - 1) as nat);
        assert forall|v: int| link_within(sh, keys, t, start, m).contains(v) implies vset.contains(v) by {
            if !prev.contains(v) {
                let u = choose|u: int| prev.contains(u) && #[trigger] linked(sh, keys, t, u, v);
            }
        }
    }
}

/// Whether two lists of band keys agree on some band.
fn shares_band_exec(ki: &Vec<u64>, kj: &Vec<u64>) -> (r: bool)
    ensures
        r == shares_band(ki@, kj@),
{
    let mut b: usize = 0;
    while b < ki.len() && b < kj.len()
        invariant
            b <= ki.len(),
            forall|x: int| 0 <= x < b && x < kj@.len() ==> ki@[x] != kj@[x],
        decreases ki.len() - b,
    {
        if ki[b] == kj[b] {
            return true;
        }
        b = b + 1;
    }
    false
}

/// Whether entries `u` and `v` are linked.
fn linked_exec(sh: &Vec<Vec<u64>>, keys: &Vec<Vec<u64>>, t: u64, u: usize, v: usize, Ghost(shv): Ghost<Seq<Seq<u64>>>, Ghost(kv): Ghost<Seq<Seq<u64>>>) -> (r: bool)
    requires
        shv == sh@.map_values(|x: Vec<u64>| x@),
        kv == keys@.map_values(|x: Vec<u64>| x@),
        keys@.len() == sh@.len(),
        u < sh@.len(),
        v < sh@.len(),
        forall|i: int| 0 <= i < sh@.len() ==> #[trigger] increasing(sh@[i]@),
        forall|i: int| 0 <= i < sh@.len() ==> #[trigger] sh@[i]@.len() <= usize::MAX / 2,
    ensures
        r == linked(shv, kv, t, u as int, v as int),
{
    if u == v {
        return false;
    }
    if !shares_band_exec(&keys[u], &keys[v]) {
        return false;
    }
    let (i, j) = if u < v { (u, v) } else { (v, u) };
    let (shared, union) = jaccard(&sh[i], &sh[j]);
    if union == 0 {
        t == 0
    } else {
        assert((t as u128) * (union as u128) <= 0xffff_ffff_ffff_ffffu128 * 0xffff_ffff_ffff_ffffu128) by (nonlinear_arith)
            requires
                t <= 0xffff_ffff_ffff_ffffu64,
                union <= 0xffff_ffff_ffff_ffffu64,
        ;
        (shared as u128) * 1000000 >= (t as u128) * (union as u128)
    }
}

/// The entries connected to `start` by links: `r[v]` tells whether `v` is.
fn reach_links(
    sh: &Vec<Vec<u64>>,
    keys: &Vec<Vec<u64>>,
    t: u64,
    start: usize,
    Ghost(shv): Ghost<Seq<Seq<u64>>>,
    Ghost(kv): Ghost<Seq<Seq<u64>>>,
) -> (r: Vec<bool>)
    requires
        shv == sh@.map_values(|x: Vec<u64>| x@),
        kv == keys@.map_values(|x: Vec<u64>| x@),
        keys@.len() == sh@.len(),
        start < sh@.len(),
        forall|i: int| 0 <= i < sh@.len() ==> #[trigger] increasing(sh@[i]@),
        forall|i: int| 0 <= i < sh@.len() ==> #[trigger] sh@[i]@.len() <= usize::MAX / 2,
    ensures
        r@.len() == sh@.len(),
        forall|v: int| 0 <= v < r@.len() ==> (r@[v] <==> connected(shv, kv, t, start as int, v)),
{
    let n = sh.len();
    let mut seen: Vec<bool> = Vec::new();
    let mut i: usize = 0;
    while i < n
        invariant
            i <= n,
            seen@.len() == i,
            forall|x: int| 0 <= x < i ==> !seen@[x],
        decreases n - i,
    {
        seen.push(false);
        i = i + 1;
    }
    let mut stack: Vec<usize> = Vec::new();
    stack.push(start);
    proof {
        assert(link_within(shv, kv, t, start as int, 0).contains(start as int));
        assert(stack@[0] == start);
    }
    while stack.len() > 0
        invariant
            n == sh@.len(),
            shv == sh@.map_values(|x: Vec<u64>| x@),
            kv == keys@.map_values(|x: Vec<u64>| x@),
            keys@.len() == sh@.len(),
            start < n,
            forall|x: int| 0 <= x < sh@.len() ==> #[trigger] increasing(sh@[x]@),
            forall|x: int| 0 <= x < sh@.len() ==> #[trigger] sh@[x]@.len() <= usize::MAX / 2,
            seen@.len() == n,
            forall|q: int| 0 <= q < stack@.len() ==> #[trigger] stack@[q] < n && connected(shv, kv, t, start as int, stack@[q] as int),
            forall|v: int| 0 <= v < n && #[trigger] seen@[v] ==> connected(shv, kv, t, start as int, v),
            seen@[start as int] || stack@.contains(start),
            forall|u: int, w: int| 0 <= u < n && seen@[u] && #[trigger] linked(shv, kv, t, u, w) ==> seen@[w] || stack@.contains(w as usize),
        decreases n - crate::graph::analysis::count_true(seen@), stack@.len(),
    {
        let ghost old_stack = stack@;
        let ghost old_seen = seen@;
        let cur = stack.pop().unwrap();
        proof {
            crate::graph::analysis::lemma_count_true_le(seen@);
            assert(old_stack == stack@.push(cur));
            assert forall|x: usize| old_stack.contains(x) && x != cur implies stack@.contains(x) by {
                let q = choose|q: int| 0 <= q < old_stack.len() && old_stack[q] == x;
                assert(stack@[q] == x);
            }
            assert(cur == old_stack[old_stack.len() - 1]);
        }
        if !seen[cur] {
            proof {
                crate::graph::analysis::lemma_count_true(seen@, cur as int);
            }
            seen.set(cur, true);
            let ghost mid_stack = stack@;
            let mut w: usize = 0;
            while w < n
                invariant
                    w <= n,
                    n == sh@.len(),
                    cur < n,
                    shv == sh@.map_values(|x: Vec<u64>| x@),
                    kv == keys@.map_values(|x: Vec<u64>| x@),
                    keys@.len() == sh@.len(),
                    forall|x: int| 0 <= x < sh@.len() ==> #[trigger] increasing(sh@[x]@),
                    forall|x: int| 0 <= x < sh@.len() ==> #[trigger] sh@[x]@.len() <= usize::MAX / 2,
                    connected(shv, kv, t, start as int, cur as int),
                    forall|q: int| 0 <= q < stack@.len() ==> #[trigger] stack@[q] < n && connected(shv, kv, t, start as int, stack@[q] as int),
                    forall|x: int| 0 <= x < w && #[trigger] linked(shv, kv, t, cur as int, x) ==> stack@.contains(x as usize),
                    forall|x: usize| mid_stack.contains(x) ==> stack@.contains(x),
                decreases n - w,
            {
                if linked_exec(sh, keys, t, cur, w, Ghost(shv), Ghost(kv)) {
                    proof {
                        lemma_connected_step(shv, kv, t, start as int, cur as int, w as int);
                    }
                    let ghost before = stack@;
                    stack.push(w);
                    proof {
                        assert(stack@[before.len() as int] == w);
                        assert forall|x: usize| before.contains(x) implies stack@.contains(x) by {
                            let q = choose|q: int| 0 <= q < before.len() && before[q] == x;
                            assert(stack@[q] == x);
                        }
                    }
                }
                w = w + 1;
            }
            proof {
                assert forall|u: int, x: int| 0 <= u < n && seen@[u] && #[trigger] linked(shv, kv, t, u, x) implies seen@[x] || stack@.contains(x as usize) by {
                    if u == cur {
                        assert(0 <= x < n);
                    } else {
                        assert(old_seen[u]);
                        if x != cur && !old_seen[x] {
                            assert(old_stack.contains(x as usize));
                            assert(mid_stack.contains(x as usize));
                        }
                    }
                }
                if start != cur && !old_seen[start as int] {
                    assert(mid_stack.contains(start));
                }
            }
        } else {
            proof {
                assert forall|u: int, x: int| 0 <= u < n && seen@[u] && #[trigger] linked(shv, kv, t, u, x) implies seen@[x] || stack@.contains(x as usize) by {
                    if x != cur && !seen@[x] {
                        assert(old_stack.contains(x as usize));
                    }
                }
            }
        }
    }
    proof {
        let vset = Set::new(|v: int| 0 <= v < n && seen@[v]);
        assert(vset.contains(start as int));
        assert forall|u: int, v: int| vset.contains(u) && #[trigger] linked(shv, kv, t, u, v) implies vset.contains(v) by {
        }
        assert forall|v: int| 0 <= v < seen@.len() implies (seen@[v] <==> connected(shv, kv, t, start as int, v)) by {
            if connected(shv, kv, t, start as int, v) {
                let m = choose|m: nat| #[trigger] link_within(shv, kv, t, start as int, m).contains(v);
                lemma_link_closed(shv, kv, t, start as int, vset, m);
            }
        }
    }
    seen
}

/// The signature of a shingle set.
pub open spec fn sig_of(sh: Seq<u64>, count: nat) -> Seq<u64> {
    Seq::new(count, |k: int| min_hash(sh, salt_spec(k as nat)))
}

/// The band keys of every shingle set.
pub open spec fn keys_of(sh: Seq<Seq<u64>>, count: nat, band_size: nat) -> Seq<Seq<u64>> {
    Seq::new(sh.len(), |i: int| Seq::new(count / band_size, |b: int| band_key_spec(sig_of(sh[i], count), b as nat, band_size)))
}

/// The entries of `0..n` connected to `start`, in index order.
pub open spec fn component_list(sh: Seq<Seq<u64>>, keys: Seq<Seq<u64>>, t: u64, start: int) -> Seq<int> {
    Seq::new(sh.len(), |i: int| i).filter(|v: int| connected(sh, keys, t, start, v))
}

/// The components met scanning the first `s` entries in index order: the
/// entries already grouped, and each new entry's component.
pub open spec fn components(sh: Seq<Seq<u64>>, keys: Seq<Seq<u64>>, t: u64, s: nat) -> (Set<int>, Seq<Seq<int>>)
    decreases s,
{
    if s == 0 {
        (Set::empty(), Seq::empty())
    } else {
        let p = components(sh, keys, t, (s - 1) as nat);
        let st = s - 1;
        if p.0.contains(st) {
            p
        } else {
            let c = component_list(sh, keys, t, st);
            (p.0.union(c.to_set()), p.1.push(c))
        }
    }
}

/// A collapsed member and its similarity to the representative, as
/// (shared, union) shingle counts.
#[derive(Debug, Clone, PartialEq, Eq)]
pub struct DuplicateMember {
    /// Repository-relative path of the collapsed file.
    pub path: String,
    /// Shingles shared with the representative.
    pub shared: usize,
    /// Shingles in either file.
    pub union: usize,
}

/// A collapsed near-duplicate group.
#[derive(Debug, Clone, PartialEq, Eq)]
pub struct DuplicateGroup {
    /// Path kept as the group's representative.
    pub representative: String,
    /// Collapsed members, sorted by path.
    pub members: Vec<DuplicateMember>,
}

/// A member as (path, shared, union).
pub open spec fn member_view(m: DuplicateMember) -> (Seq<char>, int, int) {
    (m.path@, m.shared as int, m.union as int)
}

/// Whether members are in path order.
pub open spec fn members_sorted(ms: Seq<DuplicateMember>) -> bool {
    sorted_by(ms, |a: DuplicateMember, b: DuplicateMember| crate::order::lex_le(a.path@, b.path@, false))
}

/// Members ordered by path.
pub open spec fn member_order() -> spec_fn(DuplicateMember, DuplicateMember) -> bool {
    |a: DuplicateMember, b: DuplicateMember| crate::order::lex_le(a.path@, b.path@, false)
}

/// Member views ordered by path.
pub open spec fn member_view_order() -> spec_fn((Seq<char>, int, int), (Seq<char>, int, int)) -> bool {
    |a: (Seq<char>, int, int), b: (Seq<char>, int, int)| crate::order::lex_le(a.0, b.0, false)
}

/// Whether `g` is the group of component `c`: the first entry represents
/// it, every other entry is a member with its shingle counts against the
/// representative, members sorted by path, members with the same path in
/// component order.
pub open spec fn group_ok(g: DuplicateGroup, c: Seq<int>, paths: Seq<Seq<char>>, sh: Seq<Seq<u64>>) -> bool {
    &&& g.representative@ == paths[c[0]]
    &&& g.members@.map_values(|m: DuplicateMember| member_view(m)).to_multiset() == c.drop_first().map_values(
        |m: int| (paths[m], shared_count(sh[c[0]], sh[m]) as int, union_count(sh[c[0]], sh[m])),
    ).to_multiset()
    &&& members_sorted(g.members@)
    &&& g.members@.map_values(|m: DuplicateMember| member_view(m)) == crate::order::sort_spec(
        c.drop_first().map_values(
            |m: int| (paths[m], shared_count(sh[c[0]], sh[m]) as int, union_count(sh[c[0]], sh[m])),
        ),
        member_view_order(),
    )
}

/// Whether a component has at least two entries.
pub open spec fn is_group(c: Seq<int>) -> bool {
    c.len() >= 2
}

/// The paths of entries.
pub open spec fn entry_paths(entries: Seq<(String, String)>) -> Seq<Seq<char>> {
    Seq::new(entries.len(), |i: int| entries[i].0@)
}

/// Whether `r` holds the near-duplicate groups of the entries given their
/// shingle sets `sh`.
pub open spec fn dedup_ok(r: Seq<DuplicateGroup>, sh: Seq<Seq<u64>>, entries: Seq<(String, String)>, config: DedupConfig) -> bool {
    let keys = keys_of(sh, config.signature_count as nat, config.band_size as nat);
    let g = components(sh, keys, config.similarity_threshold_millionths, entries.len()).1.filter(|c: Seq<int>| is_group(c));
    &&& sh.len() == entries.len()
    &&& forall|i: int| 0 <= i < sh.len() ==> shingles_ok(#[trigger] sh[i], entries[i].1@, config.shingle_size as nat, config.max_shingles_per_file as nat)
    &&& r.len() == g.len()
    &&& forall|i: int| 0 <= i < r.len() ==> group_ok(#[trigger] r[i], g[i], entry_paths(entries), sh)
}

pub(crate) proof fn lemma_filter_increasing(s: Seq<int>, p: spec_fn(int) -> bool)
    requires
        forall|i: int, j: int| 0 <= i < j < s.len() ==> s[i] < s[j],
    ensures
        forall|i: int, j: int| 0 <= i < j < s.filter(p).len() ==> s.filter(p)[i] < s.filter(p)[j],
        forall|x: int| #[trigger] s.filter(p).contains(x) ==> s.contains(x),
    decreases s.len(),
{
    reveal(Seq::filter);
    if s.len() > 0 {
        let dl = s.drop_last();
        assert forall|i: int, j: int| 0 <= i < j < dl.len() implies dl[i] < dl[j] by {
            assert(dl[i] == s[i] && dl[j] == s[j]);
        }
        lemma_filter_increasing(dl, p);
        let f = dl.filter(p);
        if p(s.last()) {
            let r = s.filter(p);
            assert(r == f.push(s.last()));
            assert forall|i: int, j: int| 0 <= i < j < r.len() implies r[i] < r[j] by {
                if j < r.len() - 1 {
                    assert(r[i] == f[i] && r[j] == f[j]);
                } else {
                    assert(r[i] == f[i]);
                    assert(f.contains(f[i]));
                    let k = choose|k: int| 0 <= k < dl.len() && dl[k] == f[i];
                    assert(s[k] == dl[k]);
                }
            }
            assert forall|x: int| #[trigger] r.contains(x) implies s.contains(x) by {
                let k = choose|k: int| 0 <= k < r.len() && r[k] == x;
                if k < r.len() - 1 {
                    assert(f[k] == x);
                    assert(f.contains(x));
                    let q = choose|q: int| 0 <= q < dl.len() && dl[q] == x;
                    assert(s[q] == x);
                } else {
                    assert(s[s.len() - 1] == x);
                }
            }
        } else {
            assert(s.filter(p) == f);
            assert forall|x: int| #[trigger] f.contains(x) implies s.contains(x) by {
                let q = choose|q: int| 0 <= q < dl.len() && dl[q] == x;
                assert(s[q] == x);
            }
        }
    }
}

pub(crate) proof fn lemma_components_are_lists(sh: Seq<Seq<u64>>, keys: Seq<Seq<u64>>, t: u64, s: nat, c: int)
    requires
        0 <= c < components(sh, keys, t, s).1.len(),
    ensures
        exists|st: int| #[trigger] component_list(sh, keys, t, st) == components(sh, keys, t, s).1[c],
    decreases s,
{
    if s > 0 {
        let p = components(sh, keys, t, (s - 1) as nat);
        if p.0.contains(s - 1) {
            lemma_components_are_lists(sh, keys, t, (s - 1) as nat, c);
        } else if c < p.1.len() {
            lemma_components_are_lists(sh, keys, t, (s - 1) as nat, c);
            let st = choose|st: int| #[trigger] component_list(sh, keys, t, st) == p.1[c];
            assert(component_list(sh, keys, t, st) == components(sh, keys, t, s).1[c]);
        } else {
            assert(component_list(sh, keys, t, s - 1) == components(sh, keys, t, s).1[c]);
        }
    }
}

/// In every near-duplicate group the representative is the entry offered
/// first: each member comes after it in priority order.
pub proof fn law_representative_first(
    r: Seq<DuplicateGroup>,
    sh: Seq<Seq<u64>>,
    entries: Seq<(String, String)>,
    config: DedupConfig,
    g: int,
    m: int,
)
    requires
        dedup_ok(r, sh, entries, config),
        0 <= g < r.len(),
        0 <= m < r[g].members@.len(),
    ensures
        exists|a: int, b: int|
            0 <= a < b < entries.len() && #[trigger] entry_paths(entries)[a] == r[g].representative@
                && #[trigger] entry_paths(entries)[b] == r[g].members@[m].path@,
{
    let keys = keys_of(sh, config.signature_count as nat, config.band_size as nat);
    let t = config.similarity_threshold_millionths;
    let all = components(sh, keys, t, entries.len()).1;
    let gp = |c: Seq<int>| is_group(c);
    let gs = all.filter(gp);
    let c = gs[g];
    let paths = entry_paths(entries);
    assert(group_ok(r[g], c, paths, sh));
    all.lemma_filter_pred(gp, g);
    assert(c.len() >= 2);
    assert(gs.contains(c));
    all.lemma_filter_contains_rev(gp, c);
    let idx = choose|i: int| 0 <= i < all.len() && all[i] == c;
    lemma_components_are_lists(sh, keys, t, entries.len(), idx);
    let st = choose|st: int| #[trigger] component_list(sh, keys, t, st) == all[idx];
    let base = Seq::new(sh.len(), |i: int| i);
    let pred = |v: int| connected(sh, keys, t, st, v);
    assert(c == base.filter(pred));
    lemma_filter_increasing(base, pred);
    let f = |q: int| (paths[q], shared_count(sh[c[0]], sh[q]) as int, union_count(sh[c[0]], sh[q]));
    let ms = r[g].members@;
    let mv = ms.map_values(|x: DuplicateMember| member_view(x));
    let cv = c.drop_first().map_values(f);
    assert(mv.to_multiset() == cv.to_multiset());
    assert(mv[m] == member_view(ms[m]));
    assert(mv.contains(mv[m]));
    mv.to_multiset_ensures();
    cv.to_multiset_ensures();
    assert(mv.to_multiset().count(mv[m]) > 0);
    assert(cv.to_multiset().count(mv[m]) > 0);
    assert(cv.contains(mv[m]));
    let j = choose|j: int| 0 <= j < cv.len() && cv[j] == mv[m];
    assert(cv[j] == f(c[j + 1]));
    let a = c[0];
    let b = c[j + 1];
    assert(c.contains(a) && c.contains(b));
    assert(base.contains(a) && base.contains(b));
    assert(0 <= a < entries.len() && 0 <= b < entries.len());
    assert(a < b);
    assert(paths[a] == r[g].representative@);
    assert(paths[b] == ms[m].path@);
}


/// The band keys of a signature.
fn band_keys(sig: &Vec<u64>, count: usize, band_size: usize) -> (r: Vec<u64>)
    requires
        band_size > 0,
        sig@.len() == count,
    ensures
        r@ == Seq::new(count as nat / band_size as nat, |b: int| band_key_spec(sig@, b as nat, band_size as nat)),
{
    let bands = count / band_size;
    let mut out: Vec<u64> = Vec::new();
    let mut b: usize = 0;
    while b < bands
        invariant
            b <= bands,
            bands == count / band_size,
            band_size > 0,
            sig@.len() == count,
            out@ == Seq::new(b as nat, |x: int| band_key_spec(sig@, x as nat, band_size as nat)),
        decreases bands - b,
    {
        assert((b + 1) * band_size <= count) by (nonlinear_arith)
            requires
                b < bands,
                bands == count / band_size,
                band_size > 0,
        ;
        out.push(band_key(sig.as_slice(), b, band_size));
        assert(out@ =~= Seq::new((b + 1) as nat, |x: int| band_key_spec(sig@, x as nat, band_size as nat)));
        b = b + 1;
    }
    out
}

/// The group of a component: the first entry represents it; the others
/// are members with their shingle counts against it, sorted by path.
fn make_group(
    entries: &Vec<(String, String)>,
    sh: &Vec<Vec<u64>>,
    comp: &Vec<usize>,
    Ghost(shv): Ghost<Seq<Seq<u64>>>,
) -> (g: DuplicateGroup)
    requires
        comp@.len() >= 1,
        shv == sh@.map_values(|x: Vec<u64>| x@),
        sh@.len() == entries@.len(),
        forall|q: int| 0 <= q < comp@.len() ==> #[trigger] comp@[q] < sh@.len(),
        forall|i: int| 0 <= i < sh@.len() ==> #[trigger] increasing(sh@[i]@),
        forall|i: int| 0 <= i < sh@.len() ==> #[trigger] sh@[i]@.len() <= usize::MAX / 2,
    ensures
        group_ok(g, comp@.map_values(|v: usize| v as int), entry_paths(entries@), shv),
{
    let ghost c = comp@.map_values(|v: usize| v as int);
    let ghost paths = entry_paths(entries@);
    let rep = comp[0];
    let mut members: Vec<DuplicateMember> = Vec::new();
    let mut q: usize = 1;
    let ghost f = |m: int| (paths[m], shared_count(shv[c[0]], shv[m]) as int, union_count(shv[c[0]], shv[m]));
    assert(c.drop_first().take(0) =~= Seq::<int>::empty());
    while q < comp.len()
        invariant
            1 <= q <= comp.len(),
            rep == comp@[0],
            c == comp@.map_values(|v: usize| v as int),
            paths == entry_paths(entries@),
            shv == sh@.map_values(|x: Vec<u64>| x@),
            sh@.len() == entries@.len(),
            f == (|m: int| (paths[m], shared_count(shv[c[0]], shv[m]) as int, union_count(shv[c[0]], shv[m]))),
            forall|x: int| 0 <= x < comp@.len() ==> #[trigger] comp@[x] < sh@.len(),
            forall|i: int| 0 <= i < sh@.len() ==> #[trigger] increasing(sh@[i]@),
            forall|i: int| 0 <= i < sh@.len() ==> #[trigger] sh@[i]@.len() <= usize::MAX / 2,
            members@.map_values(|m: DuplicateMember| member_view(m)) == c.drop_first().take(q - 1).map_values(f),
        decreases comp.len() - q,
    {
        let m = comp[q];
        let (shared, union) = jaccard(&sh[rep], &sh[m]);
        let mem = DuplicateMember { path: entries[m].0.clone(), shared, union };
        let ghost old_m = members@;
        members.push(mem);
        proof {
            assert(c.drop_first().take(q as int) =~= c.drop_first().take(q - 1).push(c[q as int]));
            assert(members@.map_values(|m: DuplicateMember| member_view(m)) =~= old_m.map_values(|m: DuplicateMember| member_view(m)).push(member_view(mem)));
            assert(member_view(mem) == f(c[q as int]));
        }
        q = q + 1;
    }
    assert(c.drop_first().take(comp@.len() - 1) =~= c.drop_first());
    let ghost unsorted = members@;
    let before = |a: &DuplicateMember, b: &DuplicateMember| -> (o: bool)
        ensures
            o == crate::order::lex_le(a.path@, b.path@, false),
        { crate::order::compare_str(a.path.as_str(), b.path.as_str(), false) <= 0 };
    proof {
        crate::order::lemma_key_preorder(|m: DuplicateMember| m.path@, false);
        assert((|a: DuplicateMember, b: DuplicateMember| crate::order::lex_le((|m: DuplicateMember| m.path@)(a), (|m: DuplicateMember| m.path@)(b), false)) =~= (|a: DuplicateMember, b: DuplicateMember| crate::order::lex_le(a.path@, b.path@, false)));
    }
    proof {
        assert(member_order() =~= (|a: DuplicateMember, b: DuplicateMember| crate::order::lex_le(a.path@, b.path@, false)));
    }
    let sorted = crate::order::stable_sort(members, &before, Ghost(member_order()));
    proof {
        crate::repo::scan::lemma_map_multiset(unsorted, sorted@, |m: DuplicateMember| member_view(m));
        assert forall|a: DuplicateMember, b: DuplicateMember| #[trigger] member_order()(a, b) == member_view_order()(member_view(a), member_view(b)) by {}
        crate::order::lemma_sort_map(unsorted, |m: DuplicateMember| member_view(m), member_order(), member_view_order());
        assert(members_sorted(sorted@)) by {
            assert forall|i: int, j: int| 0 <= i < j < sorted@.len() implies #[trigger] crate::order::lex_le(sorted@[i].path@, sorted@[j].path@, false) by {
                assert(member_order()(sorted@[i], sorted@[j]));
            }
        }
    }
    DuplicateGroup { representative: entries[rep].0.clone(), members: sorted }
}

/// Detects near-duplicate groups among priority-ordered `(path, content)`
/// entries: entries are linked when they share an LSH band and their
/// shingle sets reach the similarity threshold; each set of connected
/// entries (found scanning entries in order) with at least two members
/// becomes a group represented by its earliest entry.
pub fn detect_near_duplicates(entries: &Vec<(String, String)>, config: &DedupConfig) -> (r: Vec<DuplicateGroup>)
    requires
        config.shingle_size > 0,
        config.max_shingles_per_file > 0,
        config.max_shingles_per_file <= usize::MAX / 2,
        config.band_size > 0,
    ensures
        entries@.len() < 2 ==> r@.len() == 0,
        entries@.len() >= 2 ==> exists|sh: Seq<Seq<u64>>| #[trigger] dedup_ok(r@, sh, entries@, *config),
{
    let n = entries.len();
    if n < 2 {
        return Vec::new();
    }
    let count = config.signature_count;
    let bs = config.band_size;
    let t = config.similarity_threshold_millionths;
    let salts = signature_salts(count);
    let mut sh: Vec<Vec<u64>> = Vec::new();
    let mut keys: Vec<Vec<u64>> = Vec::new();
    let mut i: usize = 0;
    while i < n
        invariant
            i <= n,
            n == entries@.len(),
            config.shingle_size > 0,
            config.max_shingles_per_file > 0,
            config.max_shingles_per_file <= usize::MAX / 2,
            bs == config.band_size,
            bs > 0,
            count == config.signature_count,
            salts@.len() == count,
            forall|k: int| 0 <= k < count ==> #[trigger] salts@[k] == salt_spec(k as nat),
            sh@.len() == i,
            keys@.len() == i,
            forall|k: int| 0 <= k < i ==> #[trigger] increasing(sh@[k]@),
            forall|k: int| 0 <= k < i ==> #[trigger] sh@[k]@.len() <= usize::MAX / 2,
            forall|k: int| 0 <= k < i ==> shingles_ok(#[trigger] sh@[k]@, entries@[k].1@, config.shingle_size as nat, config.max_shingles_per_file as nat),
            forall|k: int| 0 <= k < i ==> #[trigger] keys@[k]@ == keys_of(sh@.map_values(|x: Vec<u64>| x@), count as nat, bs as nat)[k],
        decreases n - i,
    {
        let shingles = shingle_set(entries[i].1.as_str(), config.shingle_size, config.max_shingles_per_file);
        let sig = signature(&shingles, &salts, count);
        assert(sig@ =~= sig_of(shingles@, count as nat));
        let bk = band_keys(&sig, count, bs);
        let ghost old_sh = sh@;
        sh.push(shingles);
        keys.push(bk);
        proof {
            assert(sh@.map_values(|x: Vec<u64>| x@)[i as int] == sh@[i as int]@);
            assert forall|k: int| 0 <= k < i + 1 implies #[trigger] keys@[k]@ == keys_of(sh@.map_values(|x: Vec<u64>| x@), count as nat, bs as nat)[k] by {
                if k < i {
                    assert(sh@[k] == old_sh[k]);
                    assert(old_sh.map_values(|x: Vec<u64>| x@)[k] == sh@.map_values(|x: Vec<u64>| x@)[k]);
                }
            }
        }
        i = i + 1;
    }
    let ghost shv = sh@.map_values(|x: Vec<u64>| x@);
    let ghost kv = keys@.map_values(|x: Vec<u64>| x@);
    assert(kv =~= keys_of(shv, count as nat, bs as nat));
    let ghost paths = entry_paths(entries@);
    let mut assigned: Vec<bool> = Vec::new();
    let mut z: usize = 0;
    while z < n
        invariant
            z <= n,
            assigned@.len() == z,
            forall|x: int| 0 <= x < z ==> !assigned@[x],
        decreases n - z,
    {
        assigned.push(false);
        z = z + 1;
    }
    let mut groups: Vec<DuplicateGroup> = Vec::new();
    let mut st: usize = 0;
    assert(components(shv, kv, t, 0).1.filter(|c: Seq<int>| is_group(c)) =~= Seq::<Seq<int>>::empty());
    while st < n
        invariant
            st <= n,
            n == entries@.len(),
            sh@.len() == n,
            keys@.len() == n,
            shv == sh@.map_values(|x: Vec<u64>| x@),
            kv == keys@.map_values(|x: Vec<u64>| x@),
            paths == entry_paths(entries@),
            assigned@.len() == n,
            forall|k: int| 0 <= k < n ==> #[trigger] increasing(sh@[k]@),
            forall|k: int| 0 <= k < n ==> #[trigger] sh@[k]@.len() <= usize::MAX / 2,
            forall|v: int| 0 <= v < n ==> (#[trigger] assigned@[v] <==> components(shv, kv, t, st as nat).0.contains(v)),
            groups@.len() == components(shv, kv, t, st as nat).1.filter(|c: Seq<int>| is_group(c)).len(),
            forall|k: int| 0 <= k < groups@.len() ==> group_ok(#[trigger] groups@[k], components(shv, kv, t, st as nat).1.filter(|c: Seq<int>| is_group(c))[k], paths, shv),
        decreases n - st,
    {
        let ghost prev = components(shv, kv, t, st as nat);
        let ghost gp = prev.1.filter(|c: Seq<int>| is_group(c));
        if !assigned[st] {
            let reach = reach_links(&sh, &keys, t, st, Ghost(shv), Ghost(kv));
            let ghost pred = |v: int| connected(shv, kv, t, st as int, v);
            let ghost idx = Seq::new(shv.len(), |x: int| x);
            let mut comp: Vec<usize> = Vec::new();
            let mut v: usize = 0;
            assert(idx.take(0).filter(pred) =~= Seq::<int>::empty());
            while v < n
                invariant
                    v <= n,
                    n == shv.len(),
                    reach@.len() == n,
                    idx == Seq::new(shv.len(), |x: int| x),
                    pred == (|x: int| connected(shv, kv, t, st as int, x)),
                    forall|x: int| 0 <= x < reach@.len() ==> (reach@[x] <==> connected(shv, kv, t, st as int, x)),
                    comp@.map_values(|x: usize| x as int) == idx.take(v as int).filter(pred),
                    forall|q: int| 0 <= q < comp@.len() ==> #[trigger] comp@[q] < n,
                    assigned@.len() == n,
                    forall|x: int| 0 <= x < v ==> (#[trigger] assigned@[x] <==> (prev.0.contains(x) || connected(shv, kv, t, st as int, x))),
                    forall|x: int| v <= x < n ==> (#[trigger] assigned@[x] <==> prev.0.contains(x)),
                decreases n - v,
            {
                proof {
                    idx.take(v as int).lemma_filter_push(v as int, pred);
                    assert(idx.take(v + 1) =~= idx.take(v as int).push(v as int));
                }
                if reach[v] {
                    let ghost old_c = comp@;
                    comp.push(v);
                    assert(comp@.map_values(|x: usize| x as int) =~= old_c.map_values(|x: usize| x as int).push(v as int));
                    assigned.set(v, true);
                }
                v = v + 1;
            }
            assert(idx.take(n as int) =~= idx);
            let ghost c = comp@.map_values(|x: usize| x as int);
            assert(c == component_list(shv, kv, t, st as int));
            proof {
                assert(components(shv, kv, t, (st + 1) as nat) == (prev.0.union(c.to_set()), prev.1.push(c)));
                assert forall|x: int| 0 <= x < n implies (#[trigger] assigned@[x] <==> components(shv, kv, t, (st + 1) as nat).0.contains(x)) by {
                    if connected(shv, kv, t, st as int, x) {
                        assert(idx.filter(pred).contains(x)) by {
                            idx.lemma_filter_contains(pred, x);
                        }
                    }
                    if c.to_set().contains(x) {
                        assert(c.contains(x));
                        idx.lemma_filter_contains_rev(pred, x);
                    }
                }
                prev.1.lemma_filter_push(c, |cc: Seq<int>| is_group(cc));
            }
            if comp.len() >= 2 {
                let g = make_group(entries, &sh, &comp, Ghost(shv));
                let ghost old_g = groups@;
                groups.push(g);
                proof {
                    assert forall|k: int| 0 <= k < groups@.len() implies group_ok(#[trigger] groups@[k], components(shv, kv, t, (st + 1) as nat).1.filter(|cc: Seq<int>| is_group(cc))[k], paths, shv) by {
                        if k < old_g.len() {
                            assert(groups@[k] == old_g[k]);
                        }
                    }
                }
            }
        } else {
            proof {
                assert(prev.0.contains(st as int));
            }
        }
        st = st + 1;
    }
    assert(dedup_ok(groups@, shv, entries@, *config));
    groups
}

} // verus!
