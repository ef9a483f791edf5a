//! The TOTP normalizer: parsing a stored payload (bare base32 secret or
//! otpauth URI) into a specification, repairing a malformed base32 secret
//! once (strip separators, uppercase, pad with `=` to a multiple of eight),
//! and computing the time-indexed code by the standard HMAC one-time-password
//! construction. Only the HMAC digests come from outside crates; the base32
//! format, the URI query grammar, the dynamic truncation and the decimal
//! rendering are this library's own verified logic.

use vstd::prelude::*;

use hmac::Mac;

use crate::errors::ErrorKind;
use crate::vault::{entry_model, seq_starts_with, Entry};

verus! {

// ---------------------------------------------------------------------------
// Character tables.
// ---------------------------------------------------------------------------
/// Characters stripped out of a secret during normalization: whitespace and
/// hyphens.
pub open spec fn is_separator(c: char) -> bool {
    c == ' ' || c == '\t' || c == '\n' || c == '\r' || c == '-'
}

/// ASCII uppercasing: lowercase letters are mapped up, everything else is
/// untouched.
pub open spec fn upper_char(c: char) -> char {
    match c {
        'a' => 'A',
        'b' => 'B',
        'c' => 'C',
        'd' => 'D',
        'e' => 'E',
        'f' => 'F',
        'g' => 'G',
        'h' => 'H',
        'i' => 'I',
        'j' => 'J',
        'k' => 'K',
        'l' => 'L',
        'm' => 'M',
        'n' => 'N',
        'o' => 'O',
        'p' => 'P',
        'q' => 'Q',
        'r' => 'R',
        's' => 'S',
        't' => 'T',
        'u' => 'U',
        'v' => 'V',
        'w' => 'W',
        'x' => 'X',
        'y' => 'Y',
        'z' => 'Z',
        _ => c,
    }
}

fn upper_char_exec(c: char) -> (r: char)
    ensures
        r == upper_char(c),
{
    match c {
        'a' => 'A',
        'b' => 'B',
        'c' => 'C',
        'd' => 'D',
        'e' => 'E',
        'f' => 'F',
        'g' => 'G',
        'h' => 'H',
        'i' => 'I',
        'j' => 'J',
        'k' => 'K',
        'l' => 'L',
        'm' => 'M',
        'n' => 'N',
        'o' => 'O',
        'p' => 'P',
        'q' => 'Q',
        'r' => 'R',
        's' => 'S',
        't' => 'T',
        'u' => 'U',
        'v' => 'V',
        'w' => 'W',
        'x' => 'X',
        'y' => 'Y',
        'z' => 'Z',
        _ => c,
    }
}

// ---------------------------------------------------------------------------
// Normalization: strip separators, uppercase, pad with '=' to a multiple of
// eight characters.
// ---------------------------------------------------------------------------
/// The canonical characters of a secret: separators removed, letters
/// uppercased, in order.
pub open spec fn canon_chars(s: Seq<char>) -> Seq<char>
    decreases s.len(),
{
    if s.len() == 0 {
        Seq::empty()
    } else {
        (if is_separator(s[0]) {
            Seq::empty()
        } else {
            seq![upper_char(s[0])]
        }) + canon_chars(s.drop_first())
    }
}

/// `n` copies of the base32 padding character.
pub open spec fn eq_pad(n: nat) -> Seq<char>
    decreases n,
{
    if n == 0 {
        Seq::empty()
    } else {
        seq!['='] + eq_pad((n - 1) as nat)
    }
}

/// How many `=` bring a length up to the next multiple of eight (none when
/// it already is one).
pub open spec fn pad_len(n: nat) -> nat {
    if n % 8 == 0 {
        0
    } else {
        (8 - n % 8) as nat
    }
}

/// The normalized form of a stored secret: separators stripped, letters
/// uppercased, right-padded with `=` to the next multiple of eight.
pub open spec fn normalize_spec(s: Seq<char>) -> Seq<char> {
    canon_chars(s) + eq_pad(pad_len(canon_chars(s).len()))
}

proof fn lemma_canon_push(s: Seq<char>, x: char)
    ensures
        canon_chars(s.push(x)) == canon_chars(s) + (if is_separator(x) {
            Seq::<char>::empty()
        } else {
            seq![upper_char(x)]
        }),
    decreases s.len(),
{
    if s.len() == 0 {
        assert(s.push(x).drop_first() =~= s);
        assert(canon_chars(s) + (if is_separator(x) {
            Seq::<char>::empty()
        } else {
            seq![upper_char(x)]
        }) =~= canon_chars(s.push(x)));
    } else {
        assert(s.push(x).drop_first() =~= s.drop_first().push(x));
        lemma_canon_push(s.drop_first(), x);
        assert(canon_chars(s.push(x)) =~= canon_chars(s) + (if is_separator(x) {
            Seq::<char>::empty()
        } else {
            seq![upper_char(x)]
        }));
    }
}

proof fn lemma_canon_add(a: Seq<char>, b: Seq<char>)
    ensures
        canon_chars(a + b) == canon_chars(a) + canon_chars(b),
    decreases a.len(),
{
    if a.len() == 0 {
        assert(a + b =~= b);
        assert(canon_chars(a) + canon_chars(b) =~= canon_chars(b));
    } else {
        assert((a + b).drop_first() =~= a.drop_first() + b);
        lemma_canon_add(a.drop_first(), b);
        assert((a + b).len() > 0);
        assert((a + b)[0] == a[0]);
        assert(canon_chars(a + b) =~= canon_chars(a) + canon_chars(b));
    }
}

proof fn lemma_upper_not_separator(c: char)
    ensures
        !is_separator(upper_char(c)) || is_separator(c),
        upper_char(upper_char(c)) == upper_char(c),
{
}

proof fn lemma_canon_single(c: char)
    ensures
        canon_chars(seq![c]) == (if is_separator(c) {
            Seq::<char>::empty()
        } else {
            seq![upper_char(c)]
        }),
{
    assert(seq![c].drop_first() =~= Seq::<char>::empty());
    assert(canon_chars(Seq::<char>::empty()) =~= Seq::<char>::empty());
    assert(canon_chars(seq![c]) =~= (if is_separator(c) {
        Seq::<char>::empty()
    } else {
        seq![upper_char(c)]
    }));
}

proof fn lemma_canon_canon(s: Seq<char>)
    ensures
        canon_chars(canon_chars(s)) == canon_chars(s),
    decreases s.len(),
{
    if s.len() == 0 {
    } else {
        lemma_canon_canon(s.drop_first());
        if is_separator(s[0]) {
            assert(canon_chars(s) =~= canon_chars(s.drop_first()));
        } else {
            let u = upper_char(s[0]);
            lemma_upper_not_separator(s[0]);
            lemma_canon_add(seq![u], canon_chars(s.drop_first()));
            lemma_canon_single(u);
            assert(canon_chars(s) =~= seq![u] + canon_chars(s.drop_first()));
            assert(canon_chars(canon_chars(s)) =~= canon_chars(s));
        }
    }
}

proof fn lemma_canon_pad(n: nat)
    ensures
        canon_chars(eq_pad(n)) == eq_pad(n),
        eq_pad(n).len() == n,
    decreases n,
{
    if n > 0 {
        lemma_canon_pad((n - 1) as nat);
        assert(eq_pad(n)[0] == '=');
        assert(eq_pad(n).drop_first() =~= eq_pad((n - 1) as nat));
        assert(canon_chars(eq_pad(n)) =~= eq_pad(n));
    }
}

/// Law: normalization is idempotent — normalizing an already-normalized
/// secret (and in particular an already-canonical one) changes nothing.
pub proof fn lemma_normalize_idempotent(s: Seq<char>)
    ensures
        normalize_spec(normalize_spec(s)) == normalize_spec(s),
{
    let t = canon_chars(s);
    let k = pad_len(t.len());
    lemma_canon_add(t, eq_pad(k));
    lemma_canon_canon(s);
    lemma_canon_pad(k);
    assert(canon_chars(normalize_spec(s)) == t + eq_pad(k));
    let n = t.len();
    assert((n + pad_len(n)) % 8 == 0) by {
        if n % 8 != 0 {
            assert(n == 8 * (n / 8) + n % 8);
            assert(n + pad_len(n) == 8 * (n / 8) + 8);
            assert(8 * (n / 8) + 8 == 8 * (n / 8 + 1));
            assert((8 * (n / 8 + 1)) % 8 == 0) by (nonlinear_arith);
        }
    }
    assert(pad_len((t + eq_pad(k)).len()) == 0);
    assert(normalize_spec(normalize_spec(s)) =~= normalize_spec(s));
}

/// Rebuilds a secret in canonical form: separators stripped, letters
/// uppercased, `=`-padded to the next multiple of eight characters.
pub fn normalize_chars(v: &Vec<char>) -> (r: Vec<char>)
    ensures
        r@ == normalize_spec(v@),
{
    let mut out: Vec<char> = Vec::new();
    let n = v.len();
    for i in 0..n
        invariant
            n == v@.len(),
            out@ == canon_chars(v@.take(i as int)),
            out@.len() <= i,
    {
        let c = v[i];
        if !(c == ' ' || c == '\t' || c == '\n' || c == '\r' || c == '-') {
            out.push(upper_char_exec(c));
        }
        proof {
            assert(v@.take(i + 1) =~= v@.take(i as int).push(v@[i as int]));
            lemma_canon_push(v@.take(i as int), v@[i as int]);
            assert(out@ =~= canon_chars(v@.take(i + 1)));
        }
    }
    proof {
        assert(v@.take(n as int) =~= v@);
    }
    let ghost canon = out@;
    let count = out.len();
    let pad = if count % 8 == 0 {
        0
    } else {
        8 - count % 8
    };
    proof {
        assert(pad == pad_len(canon.len()));
    }
    for j in 0..pad
        invariant
            out@ == canon + eq_pad(j as nat),
            pad == pad_len(canon.len()),
    {
        out.push('=');
        proof {
            lemma_eq_pad_push(j as nat);
            assert(out@ =~= canon + eq_pad((j + 1) as nat));
        }
    }
    out
}

proof fn lemma_eq_pad_push(n: nat)
    ensures
        eq_pad(n).push('=') == eq_pad(n + 1),
    decreases n,
{
    if n == 0 {
        assert(eq_pad(0).push('=') =~= eq_pad(1));
    } else {
        lemma_eq_pad_push((n - 1) as nat);
        assert(eq_pad(n).push('=') =~= seq!['='] + eq_pad((n - 1) as nat).push('='));
        assert(eq_pad(n).push('=') =~= eq_pad(n + 1));
    }
}

// ---------------------------------------------------------------------------
// Conversions between strings and character vectors.
// ---------------------------------------------------------------------------
/// The characters of `s`, in order.
pub fn str_chars(s: &str) -> (r: Vec<char>)
    ensures
        r@ == s@,
{
    let n = s.unicode_len();
    let mut r: Vec<char> = Vec::new();
    for i in 0..n
        invariant
            n == s@.len(),
            r@ == s@.take(i as int),
    {
        r.push(s.get_char(i));
        proof {
            assert(s@.take(i + 1) =~= s@.take(i as int).push(s@[i as int]));
        }
    }
    proof {
        assert(s@.take(n as int) =~= s@);
    }
    r
}

/// Relies on `String::push`: appends exactly the given character.
#[verifier::external_body]
fn string_push(s: &mut String, c: char)
    ensures
        final(s)@ == old(s)@.push(c),
{
    s.push(c)
}

/// A string holding exactly the given characters.
pub fn chars_to_string(v: &Vec<char>) -> (r: String)
    ensures
        r@ == v@,
{
    let mut r = String::new();
    let n = v.len();
    for i in 0..n
        invariant
            n == v@.len(),
            r@ == v@.take(i as int),
    {
        string_push(&mut r, v[i]);
        proof {
            assert(v@.take(i + 1) =~= v@.take(i as int).push(v@[i as int]));
        }
    }
    proof {
        assert(v@.take(n as int) =~= v@);
    }
    r
}

/// The normalized form of a stored secret, as `normalize_spec` prescribes.
pub fn normalize_secret(raw: &str) -> (r: String)
    ensures
        r@ == normalize_spec(raw@),
{
    let chars = str_chars(raw);
    let out = normalize_chars(&chars);
    chars_to_string(&out)
}

// ---------------------------------------------------------------------------
// Base32 (RFC 4648 alphabet): validity and decoding.
// ---------------------------------------------------------------------------
/// The value of one base32 character, or nothing for a character outside
/// the alphabet.
pub open spec fn b32_char_val(c: char) -> Option<u8> {
    match c {
        'A' => Some(0u8),
        'B' => Some(1u8),
        'C' => Some(2u8),
        'D' => Some(3u8),
        'E' => Some(4u8),
        'F' => Some(5u8),
        'G' => Some(6u8),
        'H' => Some(7u8),
        'I' => Some(8u8),
        'J' => Some(9u8),
        'K' => Some(10u8),
        'L' => Some(11u8),
        'M' => Some(12u8),
        'N' => Some(13u8),
        'O' => Some(14u8),
        'P' => Some(15u8),
        'Q' => Some(16u8),
        'R' => Some(17u8),
        'S' => Some(18u8),
        'T' => Some(19u8),
        'U' => Some(20u8),
        'V' => Some(21u8),
        'W' => Some(22u8),
        'X' => Some(23u8),
        'Y' => Some(24u8),
        'Z' => Some(25u8),
        '2' => Some(26u8),
        '3' => Some(27u8),
        '4' => Some(28u8),
        '5' => Some(29u8),
        '6' => Some(30u8),
        '7' => Some(31u8),
        _ => None,
    }
}

fn b32_char_val_exec(c: char) -> (r: Option<u8>)
    ensures
        r == b32_char_val(c),
{
    match c {
        'A' => Some(0u8),
        'B' => Some(1u8),
        'C' => Some(2u8),
        'D' => Some(3u8),
        'E' => Some(4u8),
        'F' => Some(5u8),
        'G' => Some(6u8),
        'H' => Some(7u8),
        'I' => Some(8u8),
        'J' => Some(9u8),
        'K' => Some(10u8),
        'L' => Some(11u8),
        'M' => Some(12u8),
        'N' => Some(13u8),
        'O' => Some(14u8),
        'P' => Some(15u8),
        'Q' => Some(16u8),
        'R' => Some(17u8),
        'S' => Some(18u8),
        'T' => Some(19u8),
        'U' => Some(20u8),
        'V' => Some(21u8),
        'W' => Some(22u8),
        'X' => Some(23u8),
        'Y' => Some(24u8),
        'Z' => Some(25u8),
        '2' => Some(26u8),
        '3' => Some(27u8),
        '4' => Some(28u8),
        '5' => Some(29u8),
        '6' => Some(30u8),
        '7' => Some(31u8),
        _ => None,
    }
}

/// The length of the data region: everything before the trailing `=`
/// padding.
pub open spec fn b32_data_len(s: Seq<char>) -> nat
    decreases s.len(),
{
    if s.len() > 0 && s.last() == '=' {
        b32_data_len(s.drop_last())
    } else {
        s.len()
    }
}

/// The data region of a base32 string: the characters before the trailing
/// padding.
pub open spec fn b32_data(s: Seq<char>) -> Seq<char> {
    s.take(b32_data_len(s) as int)
}

/// A base32 string is valid when its data characters are all in the
/// alphabet and the data length leaves no impossible remainder (a final
/// block of 1, 3 or 6 characters cannot encode whole bytes).
pub open spec fn b32_valid(s: Seq<char>) -> bool {
    let d = b32_data(s);
    &&& forall|i: int| 0 <= i < d.len() ==> b32_char_val(#[trigger] d[i]) is Some
    &&& d.len() % 8 != 1
    &&& d.len() % 8 != 3
    &&& d.len() % 8 != 6
}

/// The value of data character `i`, as an integer (zero outside the data).
pub open spec fn b32v(d: Seq<char>, i: int) -> int {
    if 0 <= i < d.len() {
        match b32_char_val(d[i]) {
            Some(v) => v as int,
            None => 0,
        }
    } else {
        0
    }
}

/// The bytes encoded by one block of at most eight characters: each
/// character contributes five bits, most significant first, and only whole
/// bytes are kept.
pub open spec fn chunk_bytes(d: Seq<char>) -> Seq<u8> {
    let n = d.len();
    let v0 = b32v(d, 0);
    let v1 = b32v(d, 1);
    let v2 = b32v(d, 2);
    let v3 = b32v(d, 3);
    let v4 = b32v(d, 4);
    let v5 = b32v(d, 5);
    let v6 = b32v(d, 6);
    let v7 = b32v(d, 7);
    if n < 2 {
        Seq::empty()
    } else {
        seq![(8 * v0 + v1 / 4) as u8] + (if n < 4 {
            Seq::empty()
        } else {
            seq![(64 * (v1 % 4) + 2 * v2 + v3 / 16) as u8] + (if n < 5 {
                Seq::empty()
            } else {
                seq![(16 * (v3 % 16) + v4 / 2) as u8] + (if n < 7 {
                    Seq::empty()
                } else {
                    seq![(128 * (v4 % 2) + 4 * v5 + v6 / 8) as u8] + (if n < 8 {
                        Seq::empty()
                    } else {
                        seq![(32 * (v6 % 8) + v7) as u8]
                    })
                })
            })
        })
    }
}

/// The bytes encoded by a base32 data region, block by block.
pub open spec fn b32_decode_spec(d: Seq<char>) -> Seq<u8>
    decreases d.len(),
{
    if d.len() >= 8 {
        chunk_bytes(d.take(8)) + b32_decode_spec(d.skip(8))
    } else {
        chunk_bytes(d)
    }
}

/// Decodes a base32 secret: strips the trailing `=` padding, rejects
/// characters outside the alphabet and impossible lengths, and packs the
/// five-bit values into bytes.
#[verifier::rlimit(60)]
pub fn b32_decode(chars: &Vec<char>) -> (r: Option<Vec<u8>>)
    ensures
        match r {
            Some(bytes) => b32_valid(chars@) && bytes@ == b32_decode_spec(b32_data(chars@)),
            None => !b32_valid(chars@),
        },
{
    let n = chars.len();
    proof {
        assert(chars@.take(n as int) =~= chars@);
    }
    let mut dl = n;
    while dl > 0
        invariant
            dl <= n,
            n == chars@.len(),
            b32_data_len(chars@) == b32_data_len(chars@.take(dl as int)),
        ensures
            dl <= n,
            n == chars@.len(),
            b32_data_len(chars@) == b32_data_len(chars@.take(dl as int)),
            dl > 0 ==> chars@[dl - 1] != '=',
        decreases dl,
    {
        if chars[dl - 1] == '=' {
            proof {
                assert(chars@.take(dl as int).last() == chars@[dl - 1]);
                assert(chars@.take(dl as int).drop_last() =~= chars@.take(dl - 1));
            }
            dl = dl - 1;
        } else {
            break ;
        }
    }
    proof {
        if dl > 0 {
            assert(chars@.take(dl as int).last() == chars@[dl - 1]);
        }
        assert(b32_data_len(chars@.take(dl as int)) == dl);
        assert(b32_data_len(chars@) == dl);
    }
    let ghost data = b32_data(chars@);
    proof {
        assert(data =~= chars@.take(dl as int));
    }

    let rem = dl % 8;
    if rem == 1 || rem == 3 || rem == 6 {
        return None;
    }
    let mut vals: Vec<u8> = Vec::new();
    for i in 0..dl
        invariant
            dl <= n,
            n == chars@.len(),
            data == b32_data(chars@),
            data.len() == dl,
            data =~= chars@.take(dl as int),
            vals@.len() == i,
            forall|j: int| 0 <= j < i ==> b32_char_val(data[j]) == Some(#[trigger] vals@[j]),
    {
        match b32_char_val_exec(chars[i]) {
            Some(v) => {
                vals.push(v);
            },
            None => {
                proof {
                    assert(data[i as int] == chars@[i as int]);
                    assert(!b32_valid(chars@));
                }
                return None;
            },
        }
    }
    proof {
        assert forall|i: int| 0 <= i < data.len() implies b32_char_val(#[trigger] data[i])
            is Some by {
            assert(b32_char_val(data[i]) == Some(vals@[i]));
        }
        assert(b32_valid(chars@));
        assert forall|j: int| 0 <= j < dl implies #[trigger] vals@[j] < 32 by {
            assert(b32_char_val(data[j]) == Some(vals@[j]));
        }
    }

    let mut out: Vec<u8> = Vec::new();
    let mut pos: usize = 0;
    proof {
        assert(data.skip(0) =~= data);
    }
    while dl - pos >= 8
        invariant
            dl <= n,
            data.len() == dl,
            pos <= dl,
            pos % 8 == 0,
            vals@.len() == dl,
            forall|j: int| 0 <= j < dl ==> b32_char_val(data[j]) == Some(#[trigger] vals@[j]),
            forall|j: int| 0 <= j < dl ==> #[trigger] vals@[j] < 32,
            b32_decode_spec(data) == out@ + b32_decode_spec(data.skip(pos as int)),
        decreases dl - pos,
    {
        let ghost rest = data.skip(pos as int);
        let ghost head = rest.take(8);
        let v0 = vals[pos] as u32;
        let v1 = vals[pos + 1] as u32;
        let v2 = vals[pos + 2] as u32;
        let v3 = vals[pos + 3] as u32;
        let v4 = vals[pos + 4] as u32;
        let v5 = vals[pos + 5] as u32;
        let v6 = vals[pos + 6] as u32;
        let v7 = vals[pos + 7] as u32;
        proof {
            assert forall|k: int| 0 <= k < 8 implies b32v(head, k) == vals@[pos + k] by {
                assert(head[k] == data[pos + k]);
            }
        }
        let ghost out_pre = out@;
        out.push((8 * v0 + v1 / 4) as u8);
        out.push((64 * (v1 % 4) + 2 * v2 + v3 / 16) as u8);
        out.push((16 * (v3 % 16) + v4 / 2) as u8);
        out.push((128 * (v4 % 2) + 4 * v5 + v6 / 8) as u8);
        out.push((32 * (v6 % 8) + v7) as u8);
        proof {
            assert(out@ =~= out_pre + chunk_bytes(head));
            assert(rest.skip(8) =~= data.skip(pos + 8));
            assert(b32_decode_spec(rest) == chunk_bytes(head) + b32_decode_spec(
                data.skip(pos + 8),
            ));
            assert(b32_decode_spec(data) == out@ + b32_decode_spec(data.skip(pos + 8)));
            assert((pos + 8) % 8 == 0);
        }
        pos = pos + 8;
    }
    let tail = dl - pos;
    let ghost rest = data.skip(pos as int);
    proof {
        assert(rest.len() == tail);
        assert(tail < 8);
        assert(b32_decode_spec(rest) == chunk_bytes(rest));
        assert(tail != 1 && tail != 3 && tail != 6) by {
            assert(tail % 8 == dl % 8) by (nonlinear_arith)
                requires
                    pos % 8 == 0,
                    tail == dl - pos,
                    dl >= pos,
                    tail < 8,
            ;
        }
        assert forall|k: int| 0 <= k < tail implies b32v(rest, k) == vals@[pos + k] by {
            assert(rest[k] == data[pos + k]);
        }
    }
    let ghost out_pre = out@;
    if tail >= 2 {
        let v0 = vals[pos] as u32;
        let v1 = vals[pos + 1] as u32;
        out.push((8 * v0 + v1 / 4) as u8);
        if tail >= 4 {
            let v2 = vals[pos + 2] as u32;
            let v3 = vals[pos + 3] as u32;
            out.push((64 * (v1 % 4) + 2 * v2 + v3 / 16) as u8);
            if tail >= 5 {
                let v4 = vals[pos + 4] as u32;
                out.push((16 * (v3 % 16) + v4 / 2) as u8);
                if tail >= 7 {
                    let v5 = vals[pos + 5] as u32;
                    let v6 = vals[pos + 6] as u32;
                    out.push((128 * (v4 % 2) + 4 * v5 + v6 / 8) as u8);
                }
            }
        }
    }
    proof {
        assert(out@ =~= out_pre + chunk_bytes(rest));
        assert(b32_decode_spec(data) == out@);
    }
    Some(out)
}

// ---------------------------------------------------------------------------
// Decimal parsing.
// ---------------------------------------------------------------------------
pub open spec fn digit_val(c: char) -> Option<u8> {
    match c {
        '0' => Some(0u8),
        '1' => Some(1u8),
        '2' => Some(2u8),
        '3' => Some(3u8),
        '4' => Some(4u8),
        '5' => Some(5u8),
        '6' => Some(6u8),
        '7' => Some(7u8),
        '8' => Some(8u8),
        '9' => Some(9u8),
        _ => None,
    }
}

fn digit_val_exec(c: char) -> (r: Option<u8>)
    ensures
        r == digit_val(c),
{
    match c {
        '0' => Some(0u8),
        '1' => Some(1u8),
        '2' => Some(2u8),
        '3' => Some(3u8),
        '4' => Some(4u8),
        '5' => Some(5u8),
        '6' => Some(6u8),
        '7' => Some(7u8),
        '8' => Some(8u8),
        '9' => Some(9u8),
        _ => None,
    }
}

/// The number the digit characters spell, most significant first.
pub open spec fn digits_val(s: Seq<char>) -> nat
    decreases s.len(),
{
    if s.len() == 0 {
        0
    } else {
        digits_val(s.drop_last()) * 10 + (match digit_val(s.last()) {
            Some(d) => d as nat,
            None => 0,
        })
    }
}

pub open spec fn all_digits(s: Seq<char>) -> bool {
    forall|i: int| 0 <= i < s.len() ==> digit_val(#[trigger] s[i]) is Some
}

/// A decimal number: nonempty, all digits, and within `u64` range.
pub open spec fn spec_parse_u64(s: Seq<char>) -> Option<u64> {
    if s.len() > 0 && all_digits(s) && digits_val(s) <= u64::MAX {
        Some(digits_val(s) as u64)
    } else {
        None
    }
}

proof fn lemma_digits_val_prefix(s: Seq<char>, k: int)
    requires
        0 <= k <= s.len(),
    ensures
        digits_val(s) >= digits_val(s.take(k)),
    decreases s.len(),
{
    if k < s.len() {
        assert(s.drop_last().take(k) =~= s.take(k));
        lemma_digits_val_prefix(s.drop_last(), k);
    } else {
        assert(s.take(k) =~= s);
    }
}

pub fn parse_u64_chars(v: &Vec<char>) -> (r: Option<u64>)
    ensures
        r == spec_parse_u64(v@),
{
    let n = v.len();
    if n == 0 {
        return None;
    }
    let mut acc: u64 = 0;
    for i in 0..n
        invariant
            n == v@.len(),
            n > 0,
            all_digits(v@.take(i as int)),
            acc == digits_val(v@.take(i as int)),
    {
        let d = match digit_val_exec(v[i]) {
            Some(d) => d,
            None => {
                proof {
                    assert(digit_val(v@[i as int]) is None);
                }
                return None;
            },
        };
        proof {
            assert(v@.take(i + 1) =~= v@.take(i as int).push(v@[i as int]));
            assert(v@.take(i + 1).drop_last() =~= v@.take(i as int));
            assert(v@.take(i + 1).last() == v@[i as int]);
        }
        if acc > (u64::MAX - d as u64) / 10 {
            proof {
                assert(acc * 10 + d as u64 > u64::MAX) by (nonlinear_arith)
                    requires
                        acc > (u64::MAX - d as u64) / 10,
                        d < 10,
                ;
                assert(digits_val(v@.take(i + 1)) > u64::MAX);
                lemma_digits_val_prefix(v@, i + 1);
            }
            return None;
        }
        proof {
            assert(acc * 10 + d as u64 <= u64::MAX) by (nonlinear_arith)
                requires
                    acc <= (u64::MAX - d as u64) / 10,
                    d < 10,
            ;
        }
        acc = acc * 10 + d as u64;
    }
    proof {
        assert(v@.take(n as int) =~= v@);
    }
    Some(acc)
}

// ---------------------------------------------------------------------------
// The otpauth URI query grammar: parameters separated by '&', each a name,
// optionally '=', and a value; the first occurrence of a name wins.
// ---------------------------------------------------------------------------
/// The first index of `c` in `s`, or the length when absent.
pub open spec fn idx_of(s: Seq<char>, c: char) -> int
    decreases s.len(),
{
    if s.len() == 0 {
        0
    } else if s[0] == c {
        0
    } else {
        1 + idx_of(s.drop_first(), c)
    }
}

proof fn lemma_idx_of(s: Seq<char>, c: char)
    ensures
        0 <= idx_of(s, c) <= s.len(),
        idx_of(s, c) < s.len() ==> s[idx_of(s, c)] == c,
        forall|j: int| 0 <= j < idx_of(s, c) ==> s[j] != c,
    decreases s.len(),
{
    if s.len() > 0 && s[0] != c {
        lemma_idx_of(s.drop_first(), c);
        assert forall|j: int| 0 <= j < idx_of(s, c) implies s[j] != c by {
            if j > 0 {
                assert(s.drop_first()[j - 1] == s[j]);
            }
        }
    }
}

/// A parameter's name: what stands before its first `=`, or all of it.
pub open spec fn param_name(p: Seq<char>) -> Seq<char> {
    let k = idx_of(p, '=');
    if k < p.len() {
        p.take(k)
    } else {
        p
    }
}

/// A parameter's value: what stands after its first `=`, or nothing.
pub open spec fn param_val(p: Seq<char>) -> Seq<char> {
    let k = idx_of(p, '=');
    if k < p.len() {
        p.skip(k + 1)
    } else {
        Seq::empty()
    }
}

/// The query split at every `&`, in order.
pub open spec fn query_params(q: Seq<char>) -> Seq<Seq<char>>
    decreases q.len(),
{
    let k = idx_of(q, '&');
    if 0 <= k < q.len() {
        seq![q.take(k)] + query_params(q.skip(k + 1))
    } else {
        seq![q]
    }
}

/// The value of the first parameter called `name`, if any.
pub open spec fn lookup_param(ps: Seq<Seq<char>>, name: Seq<char>) -> Option<Seq<char>>
    decreases ps.len(),
{
    if ps.len() == 0 {
        None
    } else if param_name(ps[0]) == name {
        Some(param_val(ps[0]))
    } else {
        lookup_param(ps.drop_first(), name)
    }
}

pub open spec fn spec_param(q: Seq<char>, name: Seq<char>) -> Option<Seq<char>> {
    lookup_param(query_params(q), name)
}

/// The characters of `v` from `a` (inclusive) to `b` (exclusive).
fn vec_range(v: &Vec<char>, a: usize, b: usize) -> (r: Vec<char>)
    requires
        a <= b <= v@.len(),
    ensures
        r@ == v@.subrange(a as int, b as int),
{
    let mut r: Vec<char> = Vec::new();
    for i in a..b
        invariant
            a <= b <= v@.len(),
            r@ == v@.subrange(a as int, i as int),
    {
        r.push(v[i]);
        proof {
            assert(v@.subrange(a as int, i + 1) =~= v@.subrange(a as int, i as int).push(
                v@[i as int],
            ));
        }
    }
    r
}

/// Splits at the first occurrence of `sep`: what stands before it, and —
/// when it occurs — what stands after it.
fn split_at_char(v: &Vec<char>, sep: char) -> (r: (Vec<char>, Option<Vec<char>>))
    ensures
        ({
            let k = idx_of(v@, sep);
            if k < v@.len() {
                r.0@ == v@.take(k) && r.1 is Some && r.1.unwrap()@ == v@.skip(k + 1)
            } else {
                r.0@ == v@ && r.1 is None
            }
        }),
{
    proof {
        lemma_idx_of(v@, sep);
    }
    let n = v.len();
    let mut i: usize = 0;
    while i < n
        invariant
            i <= n,
            n == v@.len(),
            forall|j: int| 0 <= j < i ==> v@[j] != sep,
        ensures
            i <= n,
            n == v@.len(),
            forall|j: int| 0 <= j < i ==> v@[j] != sep,
            i < n ==> v@[i as int] == sep,
        decreases n - i,
    {
        if v[i] == sep {
            break ;
        }
        i = i + 1;
    }
    proof {
        let k = idx_of(v@, sep);
        if i < n {
            if k < i {
                assert(v@[k] == sep);
            }
            if i < k {
                assert(v@[i as int] != sep);
            }
            assert(i == k);
        } else {
            assert(k == n) by {
                if k < n {
                    assert(v@[k] == sep);
                }
            }
        }
    }
    let before = vec_range(v, 0, i);
    proof {
        assert(v@.subrange(0, i as int) =~= v@.take(i as int));
    }
    if i < n {
        let after = vec_range(v, i + 1, n);
        proof {
            assert(v@.subrange(i + 1, n as int) =~= v@.skip(i + 1));
        }
        (before, Some(after))
    } else {
        (before, None)
    }
}

/// Whether `v` holds exactly the characters of `s`.
fn chars_eq(v: &Vec<char>, s: &str) -> (r: bool)
    ensures
        r == (v@ == s@),
{
    let n = v.len();
    if n != s.unicode_len() {
        return false;
    }
    for i in 0..n
        invariant
            n == v@.len(),
            n == s@.len(),
            forall|j: int| 0 <= j < i ==> v@[j] == s@[j],
    {
        if v[i] != s.get_char(i) {
            return false;
        }
    }
    proof {
        assert(v@ =~= s@);
    }
    true
}

/// The value of the first query parameter called `name`, if any.
fn find_param(q: &Vec<char>, name: &str) -> (r: Option<Vec<char>>)
    ensures
        match r {
            Some(v) => spec_param(q@, name@) == Some(v@),
            None => spec_param(q@, name@) is None,
        },
{
    let mut rest = vec_range(q, 0, q.len());
    proof {
        assert(q@.subrange(0, q@.len() as int) =~= q@);
    }
    loop
        invariant
            spec_param(q@, name@) == lookup_param(query_params(rest@), name@),
        decreases rest@.len(),
    {
        let (part, more) = split_at_char(&rest, '&');
        let (pname, pval_opt) = split_at_char(&part, '=');
        let value = match pval_opt {
            Some(v) => v,
            None => Vec::new(),
        };
        proof {
            lemma_idx_of(rest@, '&');
            lemma_idx_of(part@, '=');
            let k = idx_of(rest@, '&');
            if k < rest@.len() {
                assert(query_params(rest@) == seq![rest@.take(k)] + query_params(
                    rest@.skip(k + 1),
                ));
                assert(query_params(rest@)[0] == part@);
                assert(query_params(rest@).drop_first() =~= query_params(rest@.skip(k + 1)));
            } else {
                assert(query_params(rest@) == seq![rest@]);
                assert(query_params(rest@)[0] == part@);
            }
            assert(pname@ == param_name(part@));
            assert(value@ == param_val(part@));
        }
        if chars_eq(&pname, name) {
            return Some(value);
        }
        match more {
            Some(r2) => {
                proof {
                    let k = idx_of(rest@, '&');
                    assert(k < rest@.len());
                    assert(r2@ == rest@.skip(k + 1));
                    assert(lookup_param(query_params(rest@), name@) == lookup_param(
                        query_params(r2@),
                        name@,
                    ));
                }
                rest = r2;
            },
            None => {
                proof {
                    assert(lookup_param(Seq::<Seq<char>>::empty(), name@) is None);
                    assert(idx_of(rest@, '&') >= rest@.len());
                    assert(query_params(rest@) == seq![rest@]);
                    assert(query_params(rest@)[0] == part@);
                    assert(param_name(part@) != name@);
                    assert(query_params(rest@).drop_first() =~= Seq::<Seq<char>>::empty());
                    assert(lookup_param(query_params(rest@), name@) is None);
                }
                return None;
            },
        }
    }
}

/// Whether `v` begins with the characters of `p`.
fn starts_with_str(v: &Vec<char>, p: &str) -> (r: bool)
    ensures
        r == seq_starts_with(v@, p@),
{
    let m = p.unicode_len();
    if m > v.len() {
        return false;
    }
    for i in 0..m
        invariant
            m <= v@.len(),
            m == p@.len(),
            forall|j: int| 0 <= j < i ==> v@[j] == p@[j],
    {
        if v[i] != p.get_char(i) {
            proof {
                if seq_starts_with(v@, p@) {
                    assert(v@.subrange(0, m as int)[i as int] == p@[i as int]);
                }
            }
            return false;
        }
    }
    proof {
        assert(v@.subrange(0, m as int) =~= p@);
    }
    true
}

// ---------------------------------------------------------------------------
// The TOTP specification and its parser.
// ---------------------------------------------------------------------------
/// The HMAC hash a specification calls for.
#[derive(Clone, Copy, Debug, PartialEq, Eq, Structural)]
pub enum TotpAlgorithm {
    Sha1,
    Sha256,
    Sha512,
}

/// A parsed TOTP specification: decoded secret bytes, time-step period in
/// seconds, code digit count, hash, and optional issuer metadata.
#[derive(Debug)]
pub struct TotpSpec {
    pub secret: Vec<u8>,
    pub period: u64,
    pub digits: u32,
    pub algorithm: TotpAlgorithm,
    pub issuer: Option<String>,
}

/// The mathematical value of a TOTP specification.
pub struct TotpModel {
    pub secret: Seq<u8>,
    pub period: u64,
    pub digits: u32,
    pub algorithm: TotpAlgorithm,
    pub issuer: Option<Seq<char>>,
}

pub open spec fn totp_model(t: TotpSpec) -> TotpModel {
    TotpModel {
        secret: t.secret@,
        period: t.period,
        digits: t.digits,
        algorithm: t.algorithm,
        issuer: match t.issuer {
            Some(s) => Some(s@),
            None => None,
        },
    }
}

/// What parsing guarantees: a nonempty secret, a positive period, and a
/// digit count the decimal rendering supports.
pub open spec fn totp_wf(t: TotpModel) -> bool {
    &&& t.secret.len() >= 1
    &&& t.period >= 1
    &&& 1 <= t.digits <= 9
}

/// Decoding a secret, with the single normalization retry: a valid base32
/// payload is decoded directly (an empty one has no usable secret); an
/// invalid one is normalized — separators stripped, uppercased, padded —
/// and decoding is retried exactly once.
pub open spec fn spec_parse_secret(sc: Seq<char>) -> Result<Seq<u8>, ErrorKind> {
    if b32_valid(sc) {
        let b = b32_decode_spec(b32_data(sc));
        if b.len() == 0 {
            Err(ErrorKind::TotpMissingSecret)
        } else {
            Ok(b)
        }
    } else {
        let nrm = normalize_spec(sc);
        if b32_valid(nrm) {
            let b = b32_decode_spec(b32_data(nrm));
            if b.len() == 0 {
                Err(ErrorKind::TotpMissingSecret)
            } else {
                Ok(b)
            }
        } else {
            Err(ErrorKind::TotpMalformed)
        }
    }
}

/// Parsing an `otpauth://` URI: the query part carries a mandatory
/// `secret`, and optional `period` (a positive number, default 30),
/// `digits` (1 to 9, default 6), `algorithm` (default SHA1) and `issuer`.
pub open spec fn spec_parse_uri(s: Seq<char>) -> Result<TotpModel, ErrorKind> {
    let k = idx_of(s, '?');
    if k >= s.len() {
        Err(ErrorKind::TotpMalformed)
    } else {
        let q = s.skip(k + 1);
        match spec_param(q, "secret"@) {
            None => Err(ErrorKind::TotpMalformed),
            Some(sc) => {
                let period = match spec_param(q, "period"@) {
                    None => Some(30u64),
                    Some(pc) => match spec_parse_u64(pc) {
                        Some(p) => if p >= 1 {
                            Some(p)
                        } else {
                            None
                        },
                        None => None,
                    },
                };
                let digits = match spec_param(q, "digits"@) {
                    None => Some(6u32),
                    Some(dc) => match spec_parse_u64(dc) {
                        Some(d) => if 1 <= d <= 9 {
                            Some(d as u32)
                        } else {
                            None
                        },
                        None => None,
                    },
                };
                let alg = match spec_param(q, "algorithm"@) {
                    None => Some(TotpAlgorithm::Sha1),
                    Some(ac) => if ac == "SHA1"@ {
                        Some(TotpAlgorithm::Sha1)
                    } else if ac == "SHA256"@ {
                        Some(TotpAlgorithm::Sha256)
                    } else if ac == "SHA512"@ {
                        Some(TotpAlgorithm::Sha512)
                    } else {
                        None
                    },
                };
                if period is None || digits is None || alg is None {
                    Err(ErrorKind::TotpMalformed)
                } else {
                    match spec_parse_secret(sc) {
                        Ok(b) => Ok(
                            TotpModel {
                                secret: b,
                                period: period.unwrap(),
                                digits: digits.unwrap(),
                                algorithm: alg.unwrap(),
                                issuer: spec_param(q, "issuer"@),
                            },
                        ),
                        Err(e) => Err(e),
                    }
                }
            },
        }
    }
}

/// Parsing a stored payload: an `otpauth://` URI, or a bare base32 secret
/// with the default period, digits and hash.
pub open spec fn spec_parse(raw: Seq<char>) -> Result<TotpModel, ErrorKind> {
    if seq_starts_with(raw, "otpauth://"@) {
        spec_parse_uri(raw)
    } else {
        match spec_parse_secret(raw) {
            Ok(b) => Ok(
                TotpModel {
                    secret: b,
                    period: 30,
                    digits: 6,
                    algorithm: TotpAlgorithm::Sha1,
                    issuer: None,
                },
            ),
            Err(e) => Err(e),
        }
    }
}

fn parse_secret_chars(sc: &Vec<char>) -> (r: Result<Vec<u8>, ErrorKind>)
    ensures
        match r {
            Ok(b) => spec_parse_secret(sc@) == Ok::<Seq<u8>, ErrorKind>(b@) && b@.len() >= 1,
            Err(e) => spec_parse_secret(sc@) == Err::<Seq<u8>, ErrorKind>(e),
        },
{
    match b32_decode(sc) {
        Some(b) => {
            if b.len() == 0 {
                Err(ErrorKind::TotpMissingSecret)
            } else {
                Ok(b)
            }
        },
        None => {
            let nrm = normalize_chars(sc);
            match b32_decode(&nrm) {
                Some(b) => {
                    if b.len() == 0 {
                        Err(ErrorKind::TotpMissingSecret)
                    } else {
                        Ok(b)
                    }
                },
                None => Err(ErrorKind::TotpMalformed),
            }
        },
    }
}

/// Parses a stored TOTP payload as `spec_parse` prescribes: a bare base32
/// secret or an otpauth URI, with one normalization retry when the base32
/// payload alone is invalid; any other failure, or a retry that still
/// fails, is an error.
pub fn parse(raw: &str) -> (r: Result<TotpSpec, ErrorKind>)
    ensures
        match r {
            Ok(t) => spec_parse(raw@) == Ok::<TotpModel, ErrorKind>(totp_model(t)) && totp_wf(
                totp_model(t),
            ),
            Err(e) => spec_parse(raw@) == Err::<TotpModel, ErrorKind>(e),
        },
{
    let chars = str_chars(raw);
    if !starts_with_str(&chars, "otpauth://") {
        return match parse_secret_chars(&chars) {
            Ok(b) => Ok(
                TotpSpec {
                    secret: b,
                    period: 30,
                    digits: 6,
                    algorithm: TotpAlgorithm::Sha1,
                    issuer: None,
                },
            ),
            Err(e) => Err(e),
        };
    }
    let (_, after) = split_at_char(&chars, '?');
    proof {
        lemma_idx_of(chars@, '?');
    }
    let q = match after {
        Some(q) => q,
        None => {
            return Err(ErrorKind::TotpMalformed);
        },
    };
    let sc = match find_param(&q, "secret") {
        Some(sc) => sc,
        None => {
            return Err(ErrorKind::TotpMalformed);
        },
    };
    let period: u64 = match find_param(&q, "period") {
        None => 30,
        Some(pc) => match parse_u64_chars(&pc) {
            Some(p) => {
                if p >= 1 {
                    p
                } else {
                    return Err(ErrorKind::TotpMalformed);
                }
            },
            None => {
                return Err(ErrorKind::TotpMalformed);
            },
        },
    };
    let digits: u32 = match find_param(&q, "digits") {
        None => 6,
        Some(dc) => match parse_u64_chars(&dc) {
            Some(d) => {
                if 1 <= d && d <= 9 {
                    d as u32
                } else {
                    return Err(ErrorKind::TotpMalformed);
                }
            },
            None => {
                return Err(ErrorKind::TotpMalformed);
            },
        },
    };
    let algorithm = match find_param(&q, "algorithm") {
        None => TotpAlgorithm::Sha1,
        Some(ac) => {
            if chars_eq(&ac, "SHA1") {
                TotpAlgorithm::Sha1
            } else if chars_eq(&ac, "SHA256") {
                TotpAlgorithm::Sha256
            } else if chars_eq(&ac, "SHA512") {
                TotpAlgorithm::Sha512
            } else {
                return Err(ErrorKind::TotpMalformed);
            }
        },
    };
    let issuer = match find_param(&q, "issuer") {
        Some(ic) => Some(chars_to_string(&ic)),
        None => None,
    };
    match parse_secret_chars(&sc) {
        Ok(b) => Ok(TotpSpec { secret: b, period, digits, algorithm, issuer }),
        Err(e) => Err(e),
    }
}

// ---------------------------------------------------------------------------
// Code computation: counter bytes, HMAC, dynamic truncation, decimal
// rendering.
// ---------------------------------------------------------------------------
/// The HMAC-SHA1 digest of `msg` under `key`: a function of the two alone.
pub uninterp spec fn hmac_sha1_of(key: Seq<u8>, msg: Seq<u8>) -> Seq<u8>;

/// The HMAC-SHA256 digest of `msg` under `key`.
pub uninterp spec fn hmac_sha256_of(key: Seq<u8>, msg: Seq<u8>) -> Seq<u8>;

/// The HMAC-SHA512 digest of `msg` under `key`.
pub uninterp spec fn hmac_sha512_of(key: Seq<u8>, msg: Seq<u8>) -> Seq<u8>;

/// Relies on `hmac::Hmac` over `sha1::Sha1`: the digest is a function of
/// key and message alone, 20 bytes long (the SHA-1 output size), and a key
/// of any length is accepted, so the construction never fails.
#[verifier::external_body]
fn hmac_sha1(key: &Vec<u8>, msg: &Vec<u8>) -> (r: Vec<u8>)
    ensures
        r@ == hmac_sha1_of(key@, msg@),
        r@.len() == 20,
{
    let mut mac = <hmac::Hmac<sha1::Sha1> as hmac::Mac>::new_from_slice(key.as_slice()).expect(
        "any key length is accepted",
    );
    mac.update(msg.as_slice());
    mac.finalize().into_bytes().to_vec()
}

/// Relies on `hmac::Hmac` over `sha2::Sha256`: as `hmac_sha1`, with the
/// 32-byte SHA-256 output size.
#[verifier::external_body]
fn hmac_sha256(key: &Vec<u8>, msg: &Vec<u8>) -> (r: Vec<u8>)
    ensures
        r@ == hmac_sha256_of(key@, msg@),
        r@.len() == 32,
{
    let mut mac = <hmac::Hmac<sha2::Sha256> as hmac::Mac>::new_from_slice(key.as_slice()).expect(
        "any key length is accepted",
    );
    mac.update(msg.as_slice());
    mac.finalize().into_bytes().to_vec()
}

/// Relies on `hmac::Hmac` over `sha2::Sha512`: as `hmac_sha1`, with the
/// 64-byte SHA-512 output size.
#[verifier::external_body]
fn hmac_sha512(key: &Vec<u8>, msg: &Vec<u8>) -> (r: Vec<u8>)
    ensures
        r@ == hmac_sha512_of(key@, msg@),
        r@.len() == 64,
{
    let mut mac = <hmac::Hmac<sha2::Sha512> as hmac::Mac>::new_from_slice(key.as_slice()).expect(
        "any key length is accepted",
    );
    mac.update(msg.as_slice());
    mac.finalize().into_bytes().to_vec()
}

/// The digest the specification's hash yields.
pub open spec fn hmac_digest(alg: TotpAlgorithm, key: Seq<u8>, msg: Seq<u8>) -> Seq<u8> {
    match alg {
        TotpAlgorithm::Sha1 => hmac_sha1_of(key, msg),
        TotpAlgorithm::Sha256 => hmac_sha256_of(key, msg),
        TotpAlgorithm::Sha512 => hmac_sha512_of(key, msg),
    }
}

/// The eight big-endian bytes of the time-step counter.
pub open spec fn be_bytes8(x: u64) -> Seq<u8> {
    seq![
        (x >> 56) as u8,
        (x >> 48) as u8,
        (x >> 40) as u8,
        (x >> 32) as u8,
        (x >> 24) as u8,
        (x >> 16) as u8,
        (x >> 8) as u8,
        x as u8,
    ]
}

fn counter_bytes(x: u64) -> (r: Vec<u8>)
    ensures
        r@ == be_bytes8(x),
{
    let mut r: Vec<u8> = Vec::new();
    r.push((x >> 56) as u8);
    r.push((x >> 48) as u8);
    r.push((x >> 40) as u8);
    r.push((x >> 32) as u8);
    r.push((x >> 24) as u8);
    r.push((x >> 16) as u8);
    r.push((x >> 8) as u8);
    r.push(x as u8);
    proof {
        assert(r@ =~= be_bytes8(x));
    }
    r
}

/// Dynamic truncation of a digest of at least 20 bytes: the low four bits
/// of the last byte pick an offset, and the 31-bit big-endian number there
/// is the truncated value.
pub open spec fn spec_truncate(d: Seq<u8>) -> u32 {
    if d.len() < 20 {
        0
    } else {
        let off = (d[d.len() - 1] & 0xf) as int;
        (((d[off] & 0x7f) as u32) << 24) | ((d[off + 1] as u32) << 16) | ((d[off + 2] as u32) << 8)
            | (d[off + 3] as u32)
    }
}

fn dynamic_truncate(d: &Vec<u8>) -> (r: u32)
    requires
        d@.len() >= 20,
    ensures
        r == spec_truncate(d@),
{
    let last = d[d.len() - 1];
    let off = (last & 0xf) as usize;
    proof {
        assert(last & 0xf < 16) by (bit_vector);
    }
    (((d[off] & 0x7f) as u32) << 24u32) | ((d[off + 1] as u32) << 16u32) | ((d[off + 2] as u32)
        << 8u32) | (d[off + 3] as u32)
}

pub open spec fn pow10(n: nat) -> nat
    decreases n,
{
    if n == 0 {
        1
    } else {
        10 * pow10((n - 1) as nat)
    }
}

proof fn lemma_pow10_pos(n: nat)
    ensures
        pow10(n) >= 1,
    decreases n,
{
    if n > 0 {
        lemma_pow10_pos((n - 1) as nat);
    }
}

fn pow10_u32(d: u32) -> (r: u32)
    requires
        d <= 9,
    ensures
        r == pow10(d as nat),
        r >= 1,
{
    proof {
        reveal_with_fuel(pow10, 11);
        assert(pow10(9nat) == 1000000000);
    }
    let mut r: u32 = 1;
    for i in 0..d
        invariant
            d <= 9,
            r == pow10(i as nat),
            pow10(9nat) == 1000000000,
    {
        proof {
            reveal_with_fuel(pow10, 11);
            assert(pow10(i as nat) <= pow10(8nat)) by {
                lemma_pow10_mono(i as nat, 8nat);
            }
        }
        r = r * 10;
    }
    proof {
        lemma_pow10_pos(d as nat);
    }
    r
}

proof fn lemma_pow10_mono(a: nat, b: nat)
    requires
        a <= b,
    ensures
        pow10(a) <= pow10(b),
    decreases b,
{
    if a < b {
        lemma_pow10_mono(a, (b - 1) as nat);
        lemma_pow10_pos((b - 1) as nat);
    }
}

/// Digit `d` as a character.
pub open spec fn digit_char(d: int) -> char {
    if d == 0 {
        '0'
    } else if d == 1 {
        '1'
    } else if d == 2 {
        '2'
    } else if d == 3 {
        '3'
    } else if d == 4 {
        '4'
    } else if d == 5 {
        '5'
    } else if d == 6 {
        '6'
    } else if d == 7 {
        '7'
    } else if d == 8 {
        '8'
    } else {
        '9'
    }
}

fn digit_char_exec(d: u32) -> (r: char)
    requires
        d < 10,
    ensures
        r == digit_char(d as int),
{
    if d == 0 {
        '0'
    } else if d == 1 {
        '1'
    } else if d == 2 {
        '2'
    } else if d == 3 {
        '3'
    } else if d == 4 {
        '4'
    } else if d == 5 {
        '5'
    } else if d == 6 {
        '6'
    } else if d == 7 {
        '7'
    } else if d == 8 {
        '8'
    } else {
        '9'
    }
}

/// The `n`-digit zero-padded decimal rendering of `v`: character `i` is
/// the digit at weight `10^(n-1-i)`.
pub open spec fn spec_dec_string(v: int, n: nat) -> Seq<char> {
    Seq::new(n, |i: int| digit_char((v / pow10((n - 1 - i) as nat) as int) % 10))
}

fn dec_string(v: u32, n: u32) -> (r: String)
    requires
        n <= 9,
    ensures
        r@ == spec_dec_string(v as int, n as nat),
        r@.len() == n,
{
    let mut r = String::new();
    for i in 0..n
        invariant
            n <= 9,
            r@.len() == i,
            forall|j: int| 0 <= j < i ==> r@[j] == digit_char((v as int / pow10((n - 1 - j) as nat) as int) % 10),
    {
        let p = pow10_u32(n - 1 - i);
        let d = (v / p) % 10;
        string_push(&mut r, digit_char_exec(d));
    }
    proof {
        assert(r@ =~= spec_dec_string(v as int, n as nat));
    }
    r
}

/// The deterministic decimal code for `t` at `at_time`: exactly `digits`
/// zero-padded characters, computed by the standard time-step HMAC
/// one-time-password construction — identical inputs always yield the
/// identical string.
pub open spec fn spec_code(t: TotpModel, at_time: u64) -> Seq<char> {
    let counter = (at_time / t.period) as u64;
    let digest = hmac_digest(t.algorithm, t.secret, be_bytes8(counter));
    let v = (spec_truncate(digest) as int) % (pow10(t.digits as nat) as int);
    spec_dec_string(v, t.digits as nat)
}

/// Computes the code for one time step.
pub fn code(t: &TotpSpec, at_time: u64) -> (r: String)
    requires
        totp_wf(totp_model(*t)),
    ensures
        r@ == spec_code(totp_model(*t), at_time),
        r@.len() == totp_model(*t).digits,
{
    let counter = at_time / t.period;
    let msg = counter_bytes(counter);
    let digest = match t.algorithm {
        TotpAlgorithm::Sha1 => hmac_sha1(&t.secret, &msg),
        TotpAlgorithm::Sha256 => hmac_sha256(&t.secret, &msg),
        TotpAlgorithm::Sha512 => hmac_sha512(&t.secret, &msg),
    };
    let bin = dynamic_truncate(&digest);
    let m = pow10_u32(t.digits);
    let v = bin % m;
    dec_string(v, t.digits)
}

/// An entry's TOTP disclosure: its raw stored payload, or the code at the
/// given time. An entry without a (nonempty) TOTP payload has no usable
/// secret.
pub fn get_totp(entry: &Entry, raw: bool, now: u64) -> (r: Result<String, ErrorKind>)
    ensures
        match entry_model(*entry).otp {
            None => r == Err::<String, ErrorKind>(ErrorKind::TotpMissingSecret),
            Some(o) => {
                if o.len() == 0 {
                    r == Err::<String, ErrorKind>(ErrorKind::TotpMissingSecret)
                } else if raw {
                    r is Ok && r.unwrap()@ == o
                } else {
                    match spec_parse(o) {
                        Ok(tm) => r is Ok && r.unwrap()@ == spec_code(tm, now),
                        Err(e) => r == Err::<String, ErrorKind>(e),
                    }
                }
            },
        },
{
    let o = match &entry.otp {
        Some(o) => o,
        None => {
            return Err(ErrorKind::TotpMissingSecret);
        },
    };
    if o.as_str().is_empty() {
        return Err(ErrorKind::TotpMissingSecret);
    }
    if raw {
        return Ok(o.clone());
    }
    match parse(o.as_str()) {
        Ok(t) => Ok(code(&t, now)),
        Err(e) => Err(e),
    }
}

} // verus!
