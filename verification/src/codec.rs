//! The invoice codec: the grammar of the bridge's encoded invoice strings,
//! a decoder to their human-readable rendering, and the encoder used when
//! a new invoice is issued.
//!
//! An encoded invoice is `fm:<amount>:<expiry>:<hash>:<description>`, all
//! ASCII: the amount in sats and the expiry timestamp as decimal digit
//! runs, the payment hash as exactly 64 lowercase hex digits, and the
//! description as printable characters (it may be empty and may itself
//! contain `:`; it always starts after the fourth separator).
use vstd::prelude::*;

use crate::errors::BridgeError;

verus! {

// ---------------------------------------------------------------------------
// Character classes and numerals
// ---------------------------------------------------------------------------
pub open spec fn is_digit_char(c: char) -> bool {
    '0' <= c <= '9'
}

pub open spec fn is_hex_lower_char(c: char) -> bool {
    is_digit_char(c) || ('a' <= c <= 'f')
}

/// Hex digits as a payment-hash query accepts them: either case.
pub open spec fn is_hex_digit_char(c: char) -> bool {
    is_hex_lower_char(c) || ('A' <= c <= 'F')
}

pub open spec fn is_printable_char(c: char) -> bool {
    ' ' <= c <= '~'
}

pub open spec fn digit_char(d: nat) -> char {
    ((48 + d) as u32) as char
}

pub open spec fn hex_char(d: nat) -> char {
    if d < 10 {
        digit_char(d)
    } else {
        ((87 + d) as u32) as char
    }
}

pub open spec fn digit_val(c: char) -> nat {
    (c as u32 - 48) as nat
}

pub open spec fn hex_val(c: char) -> nat {
    if is_digit_char(c) {
        digit_val(c)
    } else if 'a' <= c <= 'f' {
        (c as u32 - 87) as nat
    } else {
        (c as u32 - 55) as nat
    }
}

/// The decimal rendering of `n`, most significant digit first, no leading
/// zeros (`0` renders as `"0"`).
pub open spec fn dec_rep(n: nat) -> Seq<char>
    decreases n,
{
    if n < 10 {
        seq![digit_char(n)]
    } else {
        dec_rep(n / 10).push(digit_char(n % 10))
    }
}

/// The numeric value of a digit run, most significant digit first.
pub open spec fn dec_val(s: Seq<char>) -> nat
    decreases s.len(),
{
    if s.len() == 0 {
        0
    } else {
        dec_val(s.drop_last()) * 10 + digit_val(s.last())
    }
}

/// The lowercase hex rendering of a byte string, two digits per byte.
pub open spec fn hex_rep(bs: Seq<u8>) -> Seq<char> {
    Seq::new(
        bs.len() * 2,
        |i: int|
            if i % 2 == 0 {
                hex_char((bs[i / 2] / 16) as nat)
            } else {
                hex_char((bs[i / 2] % 16) as nat)
            },
    )
}

/// The bytes a run of hex digits stands for, one byte per digit pair.
pub open spec fn hex_decode_chars(s: Seq<char>) -> Seq<u8> {
    Seq::new(s.len() / 2, |i: int| (hex_val(s[2 * i]) * 16 + hex_val(s[2 * i + 1])) as u8)
}

/// The characters of an ASCII byte string.
pub open spec fn chars_of(bs: Seq<u8>) -> Seq<char> {
    bs.map_values(|b: u8| b as char)
}

// ---------------------------------------------------------------------------
// The grammar
// ---------------------------------------------------------------------------
/// The first position at or after `from` that does not hold a decimal
/// digit (the length of the sequence if every remaining position does).
pub open spec fn scan_digits(s: Seq<char>, from: int) -> int
    decreases s.len() - from,
{
    if from < 0 || from >= s.len() || !is_digit_char(s[from]) {
        from
    } else {
        scan_digits(s, from + 1)
    }
}

/// Where the amount's digit run ends: the encoding opens with the
/// three-character prefix, then the amount.
pub open spec fn amount_end(s: Seq<char>) -> int {
    scan_digits(s, 3)
}

/// Where the expiry's digit run ends.
pub open spec fn expiry_end(s: Seq<char>) -> int {
    scan_digits(s, amount_end(s) + 1)
}

/// Whether a character sequence follows the invoice grammar.
pub open spec fn spec_wf_encoded(s: Seq<char>) -> bool {
    let a_end = amount_end(s);
    let e_end = expiry_end(s);
    &&& s.len() >= 3
    &&& s[0] == 'f'
    &&& s[1] == 'm'
    &&& s[2] == ':'
    &&& a_end > 3
    &&& a_end < s.len()
    &&& s[a_end] == ':'
    &&& e_end > a_end + 1
    &&& e_end + 66 <= s.len()
    &&& s[e_end] == ':'
    &&& (forall|i: int| e_end + 1 <= i < e_end + 65 ==> is_hex_lower_char(#[trigger] s[i]))
    &&& s[e_end + 65] == ':'
    &&& (forall|i: int| e_end + 66 <= i < s.len() ==> is_printable_char(#[trigger] s[i]))
}

pub open spec fn spec_amount_digits(s: Seq<char>) -> Seq<char> {
    s.subrange(3, amount_end(s))
}

pub open spec fn spec_expiry_digits(s: Seq<char>) -> Seq<char> {
    s.subrange(amount_end(s) + 1, expiry_end(s))
}

pub open spec fn spec_hash_chars(s: Seq<char>) -> Seq<char> {
    s.subrange(expiry_end(s) + 1, expiry_end(s) + 65)
}

pub open spec fn spec_desc(s: Seq<char>) -> Seq<char> {
    s.subrange(expiry_end(s) + 66, s.len() as int)
}

/// The human-readable rendering built from an amount digit run and a
/// description.
pub open spec fn spec_human(amount_digits: Seq<char>, desc: Seq<char>) -> Seq<char> {
    "amount: "@ + amount_digits + " sat, description: "@ + desc
}

/// The human-readable rendering of a well-formed encoded invoice.
pub open spec fn spec_human_of(s: Seq<char>) -> Seq<char> {
    spec_human(spec_amount_digits(s), spec_desc(s))
}

/// A description the grammar can carry: printable ASCII only.
pub open spec fn spec_wf_desc(desc: Seq<char>) -> bool {
    forall|i: int| 0 <= i < desc.len() ==> is_printable_char(#[trigger] desc[i])
}

/// The encoding of invoice data.
pub open spec fn spec_encode(amount: u64, expires_at: u64, hash: Seq<u8>, desc: Seq<char>) -> Seq<
    char,
> {
    seq!['f', 'm', ':'] + dec_rep(amount as nat) + seq![':'] + dec_rep(expires_at as nat)
        + seq![':'] + hex_rep(hash) + seq![':'] + desc
}

// ---------------------------------------------------------------------------
// Facts about the grammar
// ---------------------------------------------------------------------------
/// `scan_digits` walks over digits only, and stops at the first non-digit.
pub proof fn lemma_scan_digits_range(s: Seq<char>, from: int)
    requires
        0 <= from <= s.len(),
    ensures
        from <= scan_digits(s, from) <= s.len(),
        forall|j: int| from <= j < scan_digits(s, from) ==> is_digit_char(#[trigger] s[j]),
        scan_digits(s, from) < s.len() ==> !is_digit_char(s[scan_digits(s, from)]),
    decreases s.len() - from,
{
    if from < s.len() && is_digit_char(s[from]) {
        lemma_scan_digits_range(s, from + 1);
    }
}

/// `scan_digits` lands exactly on a known first non-digit position.
pub proof fn lemma_scan_digits_finds(s: Seq<char>, from: int, to: int)
    requires
        0 <= from <= to <= s.len(),
        forall|j: int| from <= j < to ==> is_digit_char(#[trigger] s[j]),
        to == s.len() || !is_digit_char(s[to]),
    ensures
        scan_digits(s, from) == to,
    decreases to - from,
{
    if from < to {
        lemma_scan_digits_finds(s, from + 1, to);
    }
}

/// Every character of a decimal rendering is a digit, and there is at
/// least one.
pub proof fn lemma_dec_rep_digits(n: nat)
    ensures
        dec_rep(n).len() >= 1,
        forall|j: int| 0 <= j < dec_rep(n).len() ==> is_digit_char(#[trigger] dec_rep(n)[j]),
    decreases n,
{
    if n >= 10 {
        lemma_dec_rep_digits(n / 10);
    }
}

/// Reading back a decimal rendering yields the number it renders.
pub proof fn lemma_dec_val_dec_rep(n: nat)
    ensures
        dec_val(dec_rep(n)) == n,
    decreases n,
{
    let s = dec_rep(n);
    if n < 10 {
        assert(s.drop_last() =~= Seq::<char>::empty());
        assert(digit_val(digit_char(n)) == n);
        assert(dec_val(s) == dec_val(s.drop_last()) * 10 + digit_val(s.last()));
    } else {
        lemma_dec_val_dec_rep(n / 10);
        assert(s.drop_last() =~= dec_rep(n / 10));
        assert(digit_val(digit_char(n % 10)) == n % 10);
        assert(dec_val(s) == dec_val(s.drop_last()) * 10 + digit_val(s.last()));
        vstd::arithmetic::div_mod::lemma_fundamental_div_mod(n as int, 10);
    }
}

/// A well-formed encoded invoice is ASCII throughout.
pub proof fn lemma_wf_encoded_ascii(s: Seq<char>)
    requires
        spec_wf_encoded(s),
    ensures
        vstd::utf8::is_ascii_chars(s),
{
    let a_end = amount_end(s);
    let e_end = expiry_end(s);
    lemma_scan_digits_range(s, 3);
    lemma_scan_digits_range(s, a_end + 1);
    assert forall|i: int| 0 <= i < s.len() implies '\0' <= #[trigger] s[i] <= '\u{7f}' by {
        if i < 3 {
            assert(s[0] == 'f' && s[1] == 'm' && s[2] == ':');
        } else if i < a_end {
            assert(is_digit_char(s[i]));
        } else if i == a_end {
        } else if i < e_end {
            assert(is_digit_char(s[i]));
        } else if i == e_end {
        } else if i < e_end + 65 {
            assert(is_hex_lower_char(s[i]));
        } else if i == e_end + 65 {
        } else {
            assert(is_printable_char(s[i]));
        }
    }
}

// ---------------------------------------------------------------------------
// Executable scanning and parsing
// ---------------------------------------------------------------------------
/// How an ASCII character's byte relates to the character classes of the
/// grammar.
proof fn lemma_byte_class(c: char)
    requires
        c <= '\u{7f}',
    ensures
        (48 <= c as u8 <= 57) == is_digit_char(c),
        ((48 <= c as u8 <= 57) || (97 <= c as u8 <= 102)) == is_hex_lower_char(c),
        (32 <= c as u8 <= 126) == is_printable_char(c),
        (c as u8 == 58) == (c == ':'),
        (c as u8 == 102) == (c == 'f'),
        (c as u8 == 109) == (c == 'm'),
        is_digit_char(c) ==> digit_val(c) == (c as u8 - 48) as nat && digit_val(c) <= 9,
        is_hex_lower_char(c) ==> hex_val(c) == (
            if c as u8 <= 57 {
                (c as u8 - 48) as nat
            } else {
                (c as u8 - 87) as nat
            }
        ) && hex_val(c) <= 15,
{
}

/// Walk to the first non-digit at or after `from`.
fn scan_digits_exec(s: &str, from: usize, n: usize) -> (r: usize)
    requires
        s.is_ascii(),
        n == s@.len(),
        from <= n,
    ensures
        from <= r <= n,
        r as int == scan_digits(s@, from as int),
{
    let mut i = from;
    loop
        invariant
            s.is_ascii(),
            n == s@.len(),
            from <= i <= n,
            scan_digits(s@, from as int) == scan_digits(s@, i as int),
        ensures
            from <= i <= n,
            i as int == scan_digits(s@, from as int),
        decreases n - i,
    {
        if i >= n {
            assert(scan_digits(s@, i as int) == i);
            break ;
        }
        let b = s.get_ascii(i);
        proof {
            lemma_byte_class(s@[i as int]);
        }
        if !(48 <= b && b <= 57) {
            assert(scan_digits(s@, i as int) == i);
            break ;
        }
        assert(scan_digits(s@, i as int) == scan_digits(s@, i as int + 1));
        i = i + 1;
    }
    i
}

/// Check a string against the invoice grammar; on success return where
/// the amount's and the expiry's digit runs end.
fn check_encoded(s: &str) -> (r: Option<(usize, usize)>)
    ensures
        r is Some <==> spec_wf_encoded(s@),
        r matches Some((a_end, e_end)) ==> {
            &&& s.is_ascii()
            &&& a_end as int == amount_end(s@)
            &&& e_end as int == expiry_end(s@)
            &&& 3 < a_end < s@.len()
            &&& a_end + 1 < e_end
            &&& e_end + 66 <= s@.len()
            &&& s@.len() <= usize::MAX
        },
{
    if !s.is_ascii() {
        proof {
            if spec_wf_encoded(s@) {
                lemma_wf_encoded_ascii(s@);
            }
        }
        return None;
    }
    let n = s.unicode_len();
    if n < 3 {
        return None;
    }
    let b0 = s.get_ascii(0);
    let b1 = s.get_ascii(1);
    let b2 = s.get_ascii(2);
    proof {
        lemma_byte_class(s@[0]);
        lemma_byte_class(s@[1]);
        lemma_byte_class(s@[2]);
    }
    if !(b0 == 102 && b1 == 109 && b2 == 58) {
        return None;
    }
    let a_end = scan_digits_exec(s, 3, n);
    if !(a_end > 3 && a_end < n) {
        return None;
    }
    proof {
        lemma_byte_class(s@[a_end as int]);
    }
    if s.get_ascii(a_end) != 58 {
        return None;
    }
    let e_end = scan_digits_exec(s, a_end + 1, n);
    if !(e_end > a_end + 1) {
        return None;
    }
    if n - e_end < 66 {
        return None;
    }
    proof {
        lemma_byte_class(s@[e_end as int]);
    }
    if s.get_ascii(e_end) != 58 {
        return None;
    }
    let mut k = e_end + 1;
    loop
        invariant
            s.is_ascii(),
            n == s@.len(),
            e_end + 66 <= n,
            e_end + 1 <= k <= e_end + 65,
            forall|j: int| e_end + 1 <= j < k ==> is_hex_lower_char(#[trigger] s@[j]),
            a_end as int == amount_end(s@),
            e_end as int == expiry_end(s@),
        ensures
            k == e_end + 65,
            forall|j: int| e_end + 1 <= j < e_end + 65 ==> is_hex_lower_char(#[trigger] s@[j]),
        decreases e_end + 65 - k,
    {
        if k >= e_end + 65 {
            break ;
        }
        let b = s.get_ascii(k);
        proof {
            lemma_byte_class(s@[k as int]);
        }
        if !(48 <= b && b <= 57 || 97 <= b && b <= 102) {
            return None;
        }
        k = k + 1;
    }
    proof {
        lemma_byte_class(s@[e_end as int + 65]);
    }
    if s.get_ascii(e_end + 65) != 58 {
        return None;
    }
    let mut d = e_end + 66;
    loop
        invariant
            s.is_ascii(),
            n == s@.len(),
            e_end + 66 <= d <= n,
            forall|j: int| e_end + 66 <= j < d ==> is_printable_char(#[trigger] s@[j]),
            a_end as int == amount_end(s@),
            e_end as int == expiry_end(s@),
            3 < a_end < n,
            a_end + 1 < e_end,
            e_end + 66 <= n,
        ensures
            d == n,
            forall|j: int| e_end + 66 <= j < n ==> is_printable_char(#[trigger] s@[j]),
        decreases n - d,
    {
        if d >= n {
            break ;
        }
        let b = s.get_ascii(d);
        proof {
            lemma_byte_class(s@[d as int]);
        }
        if !(32 <= b && b <= 126) {
            return None;
        }
        d = d + 1;
    }
    Some((a_end, e_end))
}

/// Decode an encoded invoice into its human-readable rendering.  Returns
/// `InvoiceInvalid`, and nothing else, exactly on the strings the grammar
/// refuses.
pub fn decode_invoice(bolt11: String) -> (r: Result<String, BridgeError>)
    ensures
        r matches Ok(h) ==> spec_wf_encoded(bolt11@) && h@ == spec_human_of(bolt11@),
        r matches Err(e) ==> !spec_wf_encoded(bolt11@) && e == BridgeError::InvoiceInvalid,
{
    let s = bolt11.as_str();
    match check_encoded(s) {
        None => Err(BridgeError::InvoiceInvalid),
        Some((a_end, e_end)) => {
            let n = s.unicode_len();
            let mut out = String::new();
            out.append("amount: ");
            out.append(s.substring_ascii(3, a_end));
            out.append(" sat, description: ");
            out.append(s.substring_ascii(e_end + 66, n));
            proof {
                assert(out@ =~= spec_human_of(bolt11@));
            }
            Ok(out)
        },
    }
}

/// The plain values carried by a well-formed encoded invoice.
pub struct InvoiceFields {
    /// The invoiced amount, in sats.
    pub amount: u64,
    /// The expiry bound as a unix timestamp (seconds).
    pub expires_at: u64,
    /// The 32-byte payment hash.
    pub payment_hash: Vec<u8>,
}

/// Whether an encoded invoice is well formed with both of its numeric
/// fields in range.
pub open spec fn spec_fields_ok(s: Seq<char>) -> bool {
    &&& spec_wf_encoded(s)
    &&& dec_val(spec_amount_digits(s)) <= u64::MAX
    &&& dec_val(spec_expiry_digits(s)) <= u64::MAX
}

/// `dec_val` never shrinks as a digit run grows.
proof fn lemma_dec_val_prefix(s: Seq<char>, from: int, mid: int, to: int)
    requires
        0 <= from <= mid <= to <= s.len(),
    ensures
        dec_val(s.subrange(from, mid)) <= dec_val(s.subrange(from, to)),
    decreases to - mid,
{
    if mid < to {
        assert(s.subrange(from, mid + 1).drop_last() =~= s.subrange(from, mid));
        assert(dec_val(s.subrange(from, mid + 1)) == dec_val(s.subrange(from, mid)) * 10
            + digit_val(s.subrange(from, mid + 1).last()));
        lemma_dec_val_prefix(s, from, mid + 1, to);
    }
}

/// Parse the digit run `s[from..to]` as a base-10 number; `None` exactly
/// when the value does not fit.
fn parse_digits(s: &str, from: usize, to: usize) -> (r: Option<u64>)
    requires
        s.is_ascii(),
        from <= to <= s@.len(),
        forall|j: int| from <= j < to ==> is_digit_char(#[trigger] s@[j]),
    ensures
        r is Some <==> dec_val(s@.subrange(from as int, to as int)) <= u64::MAX,
        r matches Some(v) ==> v == dec_val(s@.subrange(from as int, to as int)),
{
    let mut i = from;
    let mut acc: u64 = 0;
    loop
        invariant
            s.is_ascii(),
            from <= i <= to <= s@.len(),
            forall|j: int| from <= j < to ==> is_digit_char(#[trigger] s@[j]),
            acc == dec_val(s@.subrange(from as int, i as int)),
        ensures
            i == to,
            acc == dec_val(s@.subrange(from as int, to as int)),
        decreases to - i,
    {
        if i >= to {
            break ;
        }
        let b = s.get_ascii(i);
        proof {
            lemma_byte_class(s@[i as int]);
        }
        let d = (b - 48) as u64;
        proof {
            assert(s@.subrange(from as int, i as int + 1).drop_last() =~= s@.subrange(
                from as int,
                i as int,
            ));
            assert(dec_val(s@.subrange(from as int, i as int + 1)) == acc * 10 + digit_val(
                s@[i as int],
            ));
        }
        if acc > u64::MAX / 10 || (acc == u64::MAX / 10 && d > u64::MAX % 10) {
            proof {
                lemma_dec_val_prefix(s@, from as int, i as int + 1, to as int);
            }
            return None;
        }
        acc = acc * 10 + d;
        i = i + 1;
    }
    Some(acc)
}

/// Decode the 64 lowercase hex digits at `s[from..from + 64]`.
fn hex_decode_region(s: &str, from: usize) -> (out: Vec<u8>)
    requires
        s.is_ascii(),
        from + 64 <= s@.len() <= usize::MAX,
        forall|j: int| from <= j < from + 64 ==> is_hex_lower_char(#[trigger] s@[j]),
    ensures
        out@ == hex_decode_chars(s@.subrange(from as int, from as int + 64)),
        out@.len() == 32,
{
    let region = Ghost(s@.subrange(from as int, from as int + 64));
    let mut out: Vec<u8> = Vec::new();
    let mut k: usize = 0;
    loop
        invariant
            s.is_ascii(),
            from + 64 <= s@.len() <= usize::MAX,
            forall|j: int| from <= j < from + 64 ==> is_hex_lower_char(#[trigger] s@[j]),
            region@ == s@.subrange(from as int, from as int + 64),
            k <= 32,
            out@.len() == k,
            forall|j: int| 0 <= j < k ==> out@[j] == hex_decode_chars(region@)[j],
        ensures
            k == 32,
            out@.len() == 32,
            forall|j: int| 0 <= j < 32 ==> out@[j] == hex_decode_chars(region@)[j],
        decreases 32 - k,
    {
        if k >= 32 {
            break ;
        }
        let bh = s.get_ascii(from + 2 * k);
        let bl = s.get_ascii(from + 2 * k + 1);
        proof {
            lemma_byte_class(s@[from as int + 2 * k]);
            lemma_byte_class(s@[from as int + 2 * k + 1]);
        }
        let vh = if bh <= 57 {
            bh - 48
        } else {
            bh - 87
        };
        let vl = if bl <= 57 {
            bl - 48
        } else {
            bl - 87
        };
        proof {
            assert(region@[2 * k] == s@[from as int + 2 * k]);
            assert(region@[2 * k + 1] == s@[from as int + 2 * k + 1]);
            assert(vh as nat == hex_val(region@[2 * k]) && vh <= 15);
            assert(vl as nat == hex_val(region@[2 * k + 1]) && vl <= 15);
        }
        out.push(vh * 16 + vl);
        k = k + 1;
    }
    proof {
        assert(out@ =~= hex_decode_chars(region@));
    }
    out
}

/// Read the amount, expiry and payment hash out of an encoded invoice.
/// `None` exactly on strings the grammar refuses or whose numeric fields
/// do not fit.
pub fn parse_invoice_fields(s: &str) -> (r: Option<InvoiceFields>)
    ensures
        r is Some <==> spec_fields_ok(s@),
        r matches Some(f) ==> {
            &&& f.amount == dec_val(spec_amount_digits(s@))
            &&& f.expires_at == dec_val(spec_expiry_digits(s@))
            &&& f.payment_hash@ == hex_decode_chars(spec_hash_chars(s@))
            &&& f.payment_hash@.len() == 32
        },
{
    match check_encoded(s) {
        None => None,
        Some((a_end, e_end)) => {
            proof {
                lemma_scan_digits_range(s@, 3);
                lemma_scan_digits_range(s@, a_end as int + 1);
            }
            let amount = match parse_digits(s, 3, a_end) {
                None => {
                    return None;
                },
                Some(v) => v,
            };
            let expires_at = match parse_digits(s, a_end + 1, e_end) {
                None => {
                    return None;
                },
                Some(v) => v,
            };
            let payment_hash = hex_decode_region(s, e_end + 1);
            Some(InvoiceFields { amount, expires_at, payment_hash })
        },
    }
}

// ---------------------------------------------------------------------------
// Encoding
// ---------------------------------------------------------------------------
proof fn lemma_chars_of_push(bs: Seq<u8>, b: u8)
    ensures
        chars_of(bs.push(b)) =~= chars_of(bs).push(b as char),
{
}

/// Append the decimal rendering of `n`.
fn push_dec(out: &mut Vec<u8>, n: u64)
    ensures
        chars_of(final(out)@) == chars_of(old(out)@) + dec_rep(n as nat),
    decreases n,
{
    if n >= 10 {
        push_dec(out, n / 10);
        proof {
            vstd::arithmetic::div_mod::lemma_div_is_ordered_by_denominator(n as int, 1, 10);
        }
    }
    let d = (n % 10) as u8 + 48;
    proof {
        lemma_chars_of_push(out@, d);
    }
    out.push(d);
    proof {
        assert(d as char == digit_char(n as nat % 10));
        if n < 10 {
            assert(chars_of(out@) =~= chars_of(old(out)@) + dec_rep(n as nat));
        } else {
            assert((chars_of(old(out)@) + dec_rep((n / 10) as nat)).push(digit_char(n as nat % 10))
                =~= chars_of(old(out)@) + dec_rep(n as nat));
        }
    }
}

/// Append the lowercase hex rendering of `bytes`.
fn push_hex(out: &mut Vec<u8>, bytes: &Vec<u8>)
    ensures
        chars_of(final(out)@) == chars_of(old(out)@) + hex_rep(bytes@),
{
    let m = bytes.len();
    let mut k: usize = 0;
    proof {
        assert(chars_of(out@) =~= chars_of(old(out)@) + hex_rep(bytes@.take(0)));
    }
    loop
        invariant
            k <= m,
            m == bytes@.len(),
            chars_of(out@) == chars_of(old(out)@) + hex_rep(bytes@.take(k as int)),
        ensures
            k == m,
            chars_of(out@) == chars_of(old(out)@) + hex_rep(bytes@.take(m as int)),
        decreases m - k,
    {
        if k >= m {
            break ;
        }
        let b = bytes[k];
        let hi = b / 16;
        let lo = b % 16;
        let bh = if hi < 10 {
            hi + 48
        } else {
            hi + 87
        };
        let bl = if lo < 10 {
            lo + 48
        } else {
            lo + 87
        };
        let ghost before = out@;
        proof {
            lemma_chars_of_push(out@, bh);
        }
        out.push(bh);
        proof {
            lemma_chars_of_push(out@, bl);
        }
        out.push(bl);
        proof {
            assert(bh as char == hex_char((bytes@[k as int] / 16) as nat));
            assert(bl as char == hex_char((bytes@[k as int] % 16) as nat));
            assert(chars_of(out@) =~= chars_of(before) + seq![
                hex_char((bytes@[k as int] / 16) as nat),
                hex_char((bytes@[k as int] % 16) as nat),
            ]);
            assert(hex_rep(bytes@.take(k as int + 1)) =~= hex_rep(bytes@.take(k as int)) + seq![
                hex_char((bytes@[k as int] / 16) as nat),
                hex_char((bytes@[k as int] % 16) as nat),
            ]) by {
                let small = hex_rep(bytes@.take(k as int));
                let big = hex_rep(bytes@.take(k as int + 1));
                assert forall|i: int| 0 <= i < big.len() implies big[i] == (small + seq![
                    hex_char((bytes@[k as int] / 16) as nat),
                    hex_char((bytes@[k as int] % 16) as nat),
                ])[i] by {
                    assert(bytes@.take(k as int + 1)[i / 2] == if i / 2 < k {
                        bytes@.take(k as int)[i / 2]
                    } else {
                        bytes@[k as int]
                    });
                }
            }
            assert(chars_of(out@) =~= chars_of(old(out)@) + hex_rep(bytes@.take(k as int + 1)));
        }
        k = k + 1;
    }
    proof {
        assert(bytes@.take(m as int) =~= bytes@);
    }
}

/// Append an ASCII string's characters as bytes.
fn push_str_bytes(out: &mut Vec<u8>, d: &str)
    requires
        d.is_ascii(),
    ensures
        chars_of(final(out)@) == chars_of(old(out)@) + d@,
{
    let m = d.unicode_len();
    let mut k: usize = 0;
    proof {
        assert(chars_of(out@) =~= chars_of(old(out)@) + d@.take(0));
    }
    loop
        invariant
            d.is_ascii(),
            k <= m,
            m == d@.len(),
            chars_of(out@) == chars_of(old(out)@) + d@.take(k as int),
        ensures
            k == m,
            chars_of(out@) == chars_of(old(out)@) + d@.take(m as int),
        decreases m - k,
    {
        if k >= m {
            break ;
        }
        let b = d.get_ascii(k);
        proof {
            lemma_chars_of_push(out@, b);
            assert(b as char == d@[k as int]);
        }
        out.push(b);
        proof {
            assert(chars_of(out@) =~= chars_of(old(out)@) + d@.take(k as int + 1));
        }
        k = k + 1;
    }
    proof {
        assert(d@.take(m as int) =~= d@);
    }
}

/// Relies on `String::from_utf8`: a byte string that holds only ASCII
/// bytes is valid UTF-8 and decodes to the characters with the same code
/// points, one per byte.
#[verifier::external_body]
fn string_from_ascii(v: Vec<u8>) -> (r: String)
    requires
        forall|i: int| 0 <= i < v@.len() ==> v@[i] < 128,
    ensures
        r@ == chars_of(v@),
{
    match String::from_utf8(v) {
        Ok(s) => s,
        Err(_) => String::new(),
    }
}

/// Every character an encoding produces, region by region.
pub proof fn lemma_encode_wf(amount: u64, expires_at: u64, hash: Seq<u8>, desc: Seq<char>)
    requires
        hash.len() == 32,
        spec_wf_desc(desc),
    ensures
        spec_wf_encoded(spec_encode(amount, expires_at, hash, desc)),
        spec_amount_digits(spec_encode(amount, expires_at, hash, desc)) == dec_rep(amount as nat),
        spec_expiry_digits(spec_encode(amount, expires_at, hash, desc)) == dec_rep(
            expires_at as nat,
        ),
        spec_hash_chars(spec_encode(amount, expires_at, hash, desc)) == hex_rep(hash),
        spec_desc(spec_encode(amount, expires_at, hash, desc)) == desc,
{
    let s = spec_encode(amount, expires_at, hash, desc);
    let ra = dec_rep(amount as nat);
    let re = dec_rep(expires_at as nat);
    let la = ra.len() as int;
    let le = re.len() as int;
    lemma_dec_rep_digits(amount as nat);
    lemma_dec_rep_digits(expires_at as nat);
    assert(hex_rep(hash).len() == 64);
    assert(s.len() == 3 + la + 1 + le + 1 + 64 + 1 + desc.len());
    assert(s[0] == 'f' && s[1] == 'm' && s[2] == ':');
    assert forall|j: int| 3 <= j < 3 + la implies is_digit_char(#[trigger] s[j]) by {
        assert(s[j] == ra[j - 3]);
    }
    assert(s[3 + la] == ':');
    assert(!is_digit_char(':'));
    lemma_scan_digits_finds(s, 3, 3 + la);
    assert forall|j: int| 3 + la + 1 <= j < 3 + la + 1 + le implies is_digit_char(
        #[trigger] s[j],
    ) by {
        assert(s[j] == re[j - (3 + la + 1)]);
    }
    assert(s[3 + la + 1 + le] == ':');
    lemma_scan_digits_finds(s, 3 + la + 1, 3 + la + 1 + le);
    let e_end = 3 + la + 1 + le;
    assert forall|j: int| e_end + 1 <= j < e_end + 65 implies is_hex_lower_char(
        #[trigger] s[j],
    ) by {
        assert(s[j] == hex_rep(hash)[j - (e_end + 1)]);
        let i = j - (e_end + 1);
        let d = if i % 2 == 0 {
            (hash[i / 2] / 16) as nat
        } else {
            (hash[i / 2] % 16) as nat
        };
        assert(hex_rep(hash)[i] == hex_char(d));
        assert(d <= 15);
        assert(is_hex_lower_char(hex_char(d)));
    }
    assert(s[e_end + 65] == ':');
    assert forall|j: int| e_end + 66 <= j < s.len() implies is_printable_char(#[trigger] s[j]) by {
        assert(s[j] == desc[j - (e_end + 66)]);
    }
    assert(spec_amount_digits(s) =~= ra);
    assert(spec_expiry_digits(s) =~= re);
    assert(spec_hash_chars(s) =~= hex_rep(hash));
    assert(spec_desc(s) =~= desc);
}

/// Law: decoding an encoding is exact.  Every well-formed datum encodes
/// to a string the grammar accepts; its human-readable rendering is built
/// from precisely the decimal amount and the description that were
/// encoded; and the numeric fields and payment hash read back as the
/// values that went in.
pub proof fn lemma_codec_round_trip(amount: u64, expires_at: u64, hash: Seq<u8>, desc: Seq<char>)
    requires
        hash.len() == 32,
        spec_wf_desc(desc),
    ensures
        spec_wf_encoded(spec_encode(amount, expires_at, hash, desc)),
        spec_human_of(spec_encode(amount, expires_at, hash, desc)) == spec_human(
            dec_rep(amount as nat),
            desc,
        ),
        spec_fields_ok(spec_encode(amount, expires_at, hash, desc)),
        dec_val(spec_amount_digits(spec_encode(amount, expires_at, hash, desc))) == amount,
        dec_val(spec_expiry_digits(spec_encode(amount, expires_at, hash, desc))) == expires_at,
{
    lemma_encode_wf(amount, expires_at, hash, desc);
    lemma_dec_val_dec_rep(amount as nat);
    lemma_dec_val_dec_rep(expires_at as nat);
}

/// Build the encoded form of an invoice.
pub fn encode_invoice(
    amount: u64,
    expires_at: u64,
    payment_hash: &Vec<u8>,
    description: &str,
) -> (r: String)
    requires
        payment_hash@.len() == 32,
        spec_wf_desc(description@),
    ensures
        r@ == spec_encode(amount, expires_at, payment_hash@, description@),
{
    let ghost ra = dec_rep(amount as nat);
    let ghost re = dec_rep(expires_at as nat);
    let ghost target = spec_encode(amount, expires_at, payment_hash@, description@);
    let mut out: Vec<u8> = Vec::new();
    out.push(102);
    out.push(109);
    out.push(58);
    proof {
        assert(chars_of(out@) =~= seq!['f', 'm', ':']);
    }
    push_dec(&mut out, amount);
    let ghost g1 = out@;
    out.push(58);
    proof {
        lemma_chars_of_push(g1, 58);
        assert(chars_of(out@) =~= seq!['f', 'm', ':'] + ra + seq![':']);
    }
    push_dec(&mut out, expires_at);
    let ghost g2 = out@;
    out.push(58);
    proof {
        lemma_chars_of_push(g2, 58);
        assert(chars_of(out@) =~= seq!['f', 'm', ':'] + ra + seq![':'] + re + seq![':']);
    }
    push_hex(&mut out, payment_hash);
    let ghost g3 = out@;
    out.push(58);
    proof {
        lemma_chars_of_push(g3, 58);
        assert(chars_of(out@) =~= seq!['f', 'm', ':'] + ra + seq![':'] + re + seq![':']
            + hex_rep(payment_hash@) + seq![':']);
        assert(description.is_ascii()) by {
            assert forall|i: int|
                0 <= i < description@.len() implies '\0' <= #[trigger] description@[i]
                <= '\u{7f}' by {
                assert(is_printable_char(description@[i]));
            }
        }
    }
    push_str_bytes(&mut out, description);
    proof {
        assert(chars_of(out@) =~= target);
        lemma_encode_wf(amount, expires_at, payment_hash@, description@);
        lemma_wf_encoded_ascii(target);
        assert forall|i: int| 0 <= i < out@.len() implies out@[i] < 128 by {
            assert(chars_of(out@)[i] == target[i]);
            assert(chars_of(out@)[i] == out@[i] as char);
            assert(target[i] <= '\u{7f}');
        }
    }
    string_from_ascii(out)
}

} // verus!
