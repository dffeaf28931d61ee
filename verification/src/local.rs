//! The local client's own API: how a request to it is authorised.
use vstd::prelude::*;
use base64::Engine;
use crate::text::push_text;

verus! {

/// The padded base64 length of `n` bytes.
pub open spec fn padded_len(n: nat) -> nat {
    (n / 3) * 4 + if n % 3 > 0 {
        4nat
    } else {
        0nat
    }
}

/// The character of a six-bit value in the standard base64 alphabet:
/// 'A'..'Z', 'a'..'z', '0'..'9', '+', '/'.
pub open spec fn b64_char(v: int) -> char {
    if v < 26 {
        (65 + v) as char
    } else if v < 52 {
        (97 + v - 26) as char
    } else if v < 62 {
        (48 + v - 52) as char
    } else if v == 62 {
        '+'
    } else {
        '/'
    }
}

/// Standard padded base64 (RFC 4648): each three bytes become four
/// characters of six bits each, most significant first; a last group of one
/// or two bytes is filled with zero bits and padded with '=' to four.
pub open spec fn base64_std(b: Seq<u8>) -> Seq<char>
    decreases b.len(),
{
    if b.len() == 0 {
        Seq::empty()
    } else if b.len() == 1 {
        seq![b64_char((b[0] as int) / 4), b64_char(((b[0] as int) % 4) * 16), '=', '=']
    } else if b.len() == 2 {
        seq![
            b64_char((b[0] as int) / 4),
            b64_char(((b[0] as int) % 4) * 16 + (b[1] as int) / 16),
            b64_char(((b[1] as int) % 16) * 4),
            '=',
        ]
    } else {
        seq![
            b64_char((b[0] as int) / 4),
            b64_char(((b[0] as int) % 4) * 16 + (b[1] as int) / 16),
            b64_char(((b[1] as int) % 16) * 4 + (b[2] as int) / 64),
            b64_char((b[2] as int) % 64),
        ] + base64_std(b.subrange(3, b.len() as int))
    }
}

/// `base64::engine::general_purpose::STANDARD.encode`: the standard
/// alphabet with padding, so the text is `base64_std` of the bytes. The
/// engine panics when the padded length does not fit in a `usize`, so such
/// input is left out.
#[verifier::external_body]
fn encode_base64(bytes: &[u8]) -> (r: String)
    requires
        padded_len(bytes@.len()) <= usize::MAX,
    ensures
        r@ == base64_std(bytes@),
{
    base64::engine::general_purpose::STANDARD.encode(bytes)
}

/// Base64 text is four characters for every three bytes or part of three.
pub proof fn lemma_base64_len(b: Seq<u8>)
    ensures
        base64_std(b).len() == padded_len(b.len()),
    decreases b.len(),
{
    if b.len() >= 3 {
        lemma_base64_len(b.subrange(3, b.len() as int));
    }
}

proof fn lemma_b64_char_inj(x: int, y: int)
    requires
        0 <= x < 64,
        0 <= y < 64,
        b64_char(x) == b64_char(y),
    ensures
        x == y,
{
}

proof fn lemma_b64_char_not_pad(x: int)
    requires
        0 <= x < 64,
    ensures
        b64_char(x) != '=',
{
}

proof fn lemma_group_one(a0: u8, b0: u8)
    requires
        (a0 as int) / 4 == (b0 as int) / 4,
        ((a0 as int) % 4) * 16 == ((b0 as int) % 4) * 16,
    ensures
        a0 == b0,
{
}

proof fn lemma_group_two(a0: u8, a1: u8, b0: u8, b1: u8)
    requires
        (a0 as int) / 4 == (b0 as int) / 4,
        ((a0 as int) % 4) * 16 + (a1 as int) / 16 == ((b0 as int) % 4) * 16 + (b1 as int) / 16,
        ((a1 as int) % 16) * 4 == ((b1 as int) % 16) * 4,
    ensures
        a0 == b0,
        a1 == b1,
{
}

proof fn lemma_group_three(a0: u8, a1: u8, a2: u8, b0: u8, b1: u8, b2: u8)
    requires
        (a0 as int) / 4 == (b0 as int) / 4,
        ((a0 as int) % 4) * 16 + (a1 as int) / 16 == ((b0 as int) % 4) * 16 + (b1 as int) / 16,
        ((a1 as int) % 16) * 4 + (a2 as int) / 64 == ((b1 as int) % 16) * 4 + (b2 as int) / 64,
        (a2 as int) % 64 == (b2 as int) % 64,
    ensures
        a0 == b0,
        a1 == b1,
        a2 == b2,
{
}

/// Base64 text decodes to at most one byte string: different bytes never
/// encode to the same text.
pub proof fn lemma_base64_injective(a: Seq<u8>, b: Seq<u8>)
    requires
        base64_std(a) == base64_std(b),
    ensures
        a == b,
    decreases a.len(),
{
    lemma_base64_len(a);
    lemma_base64_len(b);
    let ta = base64_std(a);
    if a.len() == 0 || b.len() == 0 {
        assert(a =~= b);
        return;
    }
    let a0 = a[0] as int;
    let b0 = b[0] as int;
    assert(ta[0] == b64_char(a0 / 4) && ta[0] == b64_char(b0 / 4));
    lemma_b64_char_inj(a0 / 4, b0 / 4);
    if a.len() >= 3 {
        let a1 = a[1] as int;
        let a2 = a[2] as int;
        assert(ta[1] == b64_char((a0 % 4) * 16 + a1 / 16));
        assert(ta[2] == b64_char((a1 % 16) * 4 + a2 / 64));
        assert(ta[3] == b64_char(a2 % 64));
        lemma_b64_char_not_pad((a1 % 16) * 4 + a2 / 64);
        lemma_b64_char_not_pad(a2 % 64);
    }
    if b.len() >= 3 {
        let b1 = b[1] as int;
        let b2 = b[2] as int;
        assert(ta[1] == b64_char((b0 % 4) * 16 + b1 / 16));
        assert(ta[2] == b64_char((b1 % 16) * 4 + b2 / 64));
        assert(ta[3] == b64_char(b2 % 64));
        lemma_b64_char_not_pad((b1 % 16) * 4 + b2 / 64);
        lemma_b64_char_not_pad(b2 % 64);
    }
    if a.len() == 2 {
        lemma_b64_char_not_pad(((a[1] as int) % 16) * 4);
    }
    if b.len() == 2 {
        lemma_b64_char_not_pad(((b[1] as int) % 16) * 4);
    }
    if a.len() == 1 {
        assert(ta[1] == b64_char((a0 % 4) * 16));
        assert(ta[2] == '=');
        lemma_b64_char_inj((b0 % 4) * 16, (a0 % 4) * 16);
        lemma_group_one(a[0], b[0]);
        assert(a =~= b);
    } else if a.len() == 2 {
        let a1 = a[1] as int;
        let b1 = b[1] as int;
        assert(ta[1] == b64_char((a0 % 4) * 16 + a1 / 16));
        assert(ta[2] == b64_char((a1 % 16) * 4));
        assert(ta[3] == '=');
        lemma_b64_char_inj((a0 % 4) * 16 + a1 / 16, (b0 % 4) * 16 + b1 / 16);
        lemma_b64_char_inj((a1 % 16) * 4, (b1 % 16) * 4);
        lemma_group_two(a[0], a[1], b[0], b[1]);
        assert(a =~= b);
    } else {
        assert(b.len() >= 3);
        let a1 = a[1] as int;
        let a2 = a[2] as int;
        let b1 = b[1] as int;
        let b2 = b[2] as int;
        lemma_b64_char_inj((a0 % 4) * 16 + a1 / 16, (b0 % 4) * 16 + b1 / 16);
        lemma_b64_char_inj((a1 % 16) * 4 + a2 / 64, (b1 % 16) * 4 + b2 / 64);
        lemma_b64_char_inj(a2 % 64, b2 % 64);
        lemma_group_three(a[0], a[1], a[2], b[0], b[1], b[2]);
        let ra = a.subrange(3, a.len() as int);
        let rb = b.subrange(3, b.len() as int);
        assert(base64_std(ra) =~= ta.subrange(4, ta.len() as int));
        assert(base64_std(rb) =~= base64_std(b).subrange(4, ta.len() as int));
        lemma_base64_injective(ra, rb);
        assert(a.len() == b.len());
        assert forall|i: int| 0 <= i < a.len() implies a[i] == b[i] by {
            if i >= 3 {
                assert(ra[i - 3] == a[i] && rb[i - 3] == b[i]);
            }
        }
        assert(a =~= b);
    }
}

/// The Authorization header for the local client: "Basic " and the base64
/// of "riot:" and the lockfile password, as UTF-8.
pub fn basic_auth(password: &str) -> (r: String)
    requires
        padded_len(vstd::utf8::encode_utf8("riot:"@ + password@).len()) <= usize::MAX,
    ensures
        r@ == "Basic "@ + base64_std(vstd::utf8::encode_utf8("riot:"@ + password@)),
{
    let mut creds = "riot:".to_owned();
    push_text(&mut creds, password);
    let token = encode_base64(creds.as_str().as_bytes());
    let mut r = "Basic ".to_owned();
    push_text(&mut r, token.as_str());
    r
}

} // verus!
