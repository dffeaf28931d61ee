//! Text helpers over sequences of characters: search, split, number
//! formatting and parsing, with their meaning stated as spec functions.
use vstd::prelude::*;

verus! {

/// The characters of `s`, in order.
pub fn chars_of(s: &str) -> (r: Vec<char>)
    ensures
        r@ == s@,
{
    let mut out: Vec<char> = Vec::new();
    for c in it: s.chars()
        invariant
            out@ == s@.take(it.index() as int),
            it.seq() == s@,
    {
        out.push(c);
        proof {
            assert(it.seq().take(it.index() as int + 1) =~= out@);
        }
    }
    out
}

/// `String::push`: claims that the string afterwards is the old one with
/// `c` appended.
#[verifier::external_body]
pub(crate) fn push_char(s: &mut String, c: char)
    ensures
        final(s)@ == old(s)@.push(c),
{
    s.push(c);
}

/// A string holding exactly the given characters.
pub fn string_of(cs: &Vec<char>) -> (r: String)
    ensures
        r@ == cs@,
{
    let mut out = String::new();
    let mut i: usize = 0;
    while i < cs.len()
        invariant
            i <= cs@.len(),
            out@ == cs@.take(i as int),
        decreases cs@.len() - i,
    {
        push_char(&mut out, cs[i]);
        proof {
            assert(cs@.take(i as int + 1) =~= cs@.take(i as int).push(cs@[i as int]));
        }
        i += 1;
    }
    proof {
        assert(cs@.take(cs@.len() as int) =~= cs@);
    }
    out
}

/// Appends a whole text.
pub fn push_text(s: &mut String, t: &str)
    ensures
        final(s)@ == old(s)@ + t@,
{
    let cs = chars_of(t);
    let mut i: usize = 0;
    while i < cs.len()
        invariant
            i <= cs@.len(),
            cs@ == t@,
            s@ == old(s)@ + cs@.take(i as int),
        decreases cs@.len() - i,
    {
        push_char(s, cs[i]);
        proof {
            assert(cs@.take(i as int + 1) =~= cs@.take(i as int).push(cs@[i as int]));
            assert(old(s)@ + cs@.take(i as int + 1) =~= (old(s)@ + cs@.take(i as int)).push(
                cs@[i as int],
            ));
        }
        i += 1;
    }
    proof {
        assert(cs@.take(cs@.len() as int) =~= cs@);
    }
}

/// Two texts are equal character for character.
pub fn text_eq(a: &str, b: &str) -> (r: bool)
    ensures
        r == (a@ == b@),
{
    let x: String = a.to_owned();
    let y: String = b.to_owned();
    x == y
}

/// `pat` occurs in `hay` starting at index `i`.
pub open spec fn occurs_at(hay: Seq<char>, pat: Seq<char>, i: int) -> bool {
    0 <= i && i + pat.len() <= hay.len() && hay.subrange(i, i + pat.len()) == pat
}

/// The first index at or after `from` where `pat` occurs in `hay`, as
/// `str::find` on the text from `from` on reports it.
pub open spec fn find_spec(hay: Seq<char>, pat: Seq<char>, from: int) -> Option<int>
    decreases hay.len() + 1 - from,
{
    if from < 0 || from + pat.len() > hay.len() {
        None
    } else if occurs_at(hay, pat, from) {
        Some(from)
    } else {
        find_spec(hay, pat, from + 1)
    }
}

pub(crate) proof fn lemma_find_spec_first(hay: Seq<char>, pat: Seq<char>, from: int, i: int)
    requires
        0 <= from <= i,
        occurs_at(hay, pat, i),
        forall|j: int| from <= j < i ==> !occurs_at(hay, pat, j),
    ensures
        find_spec(hay, pat, from) == Some(i),
    decreases i - from,
{
    if from < i {
        lemma_find_spec_first(hay, pat, from + 1, i);
    }
}

proof fn lemma_find_spec_none(hay: Seq<char>, pat: Seq<char>, from: int)
    requires
        0 <= from,
        forall|j: int| from <= j ==> !occurs_at(hay, pat, j),
    ensures
        find_spec(hay, pat, from) is None,
    decreases hay.len() + 1 - from,
{
    if from + pat.len() <= hay.len() {
        lemma_find_spec_none(hay, pat, from + 1);
    }
}

/// The first index at or after `from` where `pat` occurs in `hay`.
pub fn find_from(hay: &Vec<char>, pat: &Vec<char>, from: usize) -> (r: Option<usize>)
    ensures
        r matches Some(i) ==> find_spec(hay@, pat@, from as int) == Some(i as int),
        r is None ==> find_spec(hay@, pat@, from as int) is None,
        match r {
            Some(i) => from <= i && occurs_at(hay@, pat@, i as int) && forall|j: int|
                from <= j < i ==> !occurs_at(hay@, pat@, j),
            None => forall|j: int| from <= j ==> !occurs_at(hay@, pat@, j),
        },
{
    let n = hay.len();
    let m = pat.len();
    if m > n || from > n - m {
        proof {
            assert forall|j: int| from <= j implies !occurs_at(hay@, pat@, j) by {}
            lemma_find_spec_none(hay@, pat@, from as int);
        }
        return None;
    }
    let mut i: usize = from;
    while i <= n - m
        invariant
            from <= i,
            m <= n,
            n == hay@.len(),
            m == pat@.len(),
            i <= n - m + 1,
            forall|j: int| from <= j < i ==> !occurs_at(hay@, pat@, j),
        decreases n - m + 1 - i,
    {
        let mut k: usize = 0;
        let mut same = true;
        while k < m
            invariant
                k <= m,
                i + m <= n,
                n == hay@.len(),
                m == pat@.len(),
                same == (forall|t: int| 0 <= t < k ==> hay@[i + t] == pat@[t]),
            decreases m - k,
        {
            if hay[i + k] != pat[k] {
                same = false;
            }
            k += 1;
        }
        if same {
            proof {
                assert(hay@.subrange(i as int, i + m) =~= pat@);
                lemma_find_spec_first(hay@, pat@, from as int, i as int);
            }
            return Some(i);
        }
        proof {
            if occurs_at(hay@, pat@, i as int) {
                let t = choose|t: int| 0 <= t < m && hay@[i + t] != pat@[t];
                assert(hay@.subrange(i as int, i + m)[t] == hay@[i + t]);
            }
        }
        i += 1;
    }
    proof {
        assert forall|j: int| from <= j implies !occurs_at(hay@, pat@, j) by {}
        lemma_find_spec_none(hay@, pat@, from as int);
    }
    None
}

/// Whether `pat` occurs anywhere in `hay`.
pub open spec fn contains_text(hay: Seq<char>, pat: Seq<char>) -> bool {
    exists|i: int| occurs_at(hay, pat, i)
}

pub fn contains(hay: &Vec<char>, pat: &Vec<char>) -> (r: bool)
    ensures
        r == contains_text(hay@, pat@),
{
    match find_from(hay, pat, 0) {
        Some(i) => true,
        None => false,
    }
}

pub fn starts_with(hay: &Vec<char>, pat: &Vec<char>) -> (r: bool)
    ensures
        r == occurs_at(hay@, pat@, 0),
{
    if pat.len() > hay.len() {
        return false;
    }
    let mut k: usize = 0;
    while k < pat.len()
        invariant
            k <= pat@.len(),
            pat@.len() <= hay@.len(),
            forall|t: int| 0 <= t < k ==> hay@[t] == pat@[t],
        decreases pat@.len() - k,
    {
        if hay[k] != pat[k] {
            proof {
                assert(hay@.subrange(0, pat@.len() as int)[k as int] == hay@[k as int]);
            }
            return false;
        }
        k += 1;
    }
    proof {
        assert(hay@.subrange(0, pat@.len() as int) =~= pat@);
    }
    true
}

/// The characters of `s` from `lo` up to `hi`.
pub fn slice_text(s: &Vec<char>, lo: usize, hi: usize) -> (r: String)
    requires
        lo <= hi <= s@.len(),
    ensures
        r@ == s@.subrange(lo as int, hi as int),
{
    let mut out = String::new();
    let mut i: usize = lo;
    while i < hi
        invariant
            lo <= i <= hi,
            hi <= s@.len(),
            out@ == s@.subrange(lo as int, i as int),
        decreases hi - i,
    {
        push_char(&mut out, s[i]);
        proof {
            assert(s@.subrange(lo as int, i + 1) =~= s@.subrange(lo as int, i as int).push(
                s@[i as int],
            ));
        }
        i += 1;
    }
    out
}

/// The decimal digit for `d`, which is below ten.
pub open spec fn digit_char(d: nat) -> char {
    if d == 0 { '0' }
    else if d == 1 { '1' }
    else if d == 2 { '2' }
    else if d == 3 { '3' }
    else if d == 4 { '4' }
    else if d == 5 { '5' }
    else if d == 6 { '6' }
    else if d == 7 { '7' }
    else if d == 8 { '8' }
    else { '9' }
}

/// The decimal notation of `n`, as `to_string` writes it.
pub open spec fn decimal(n: nat) -> Seq<char>
    decreases n,
{
    if n < 10 {
        seq![digit_char(n)]
    } else {
        decimal(n / 10).push(digit_char(n % 10))
    }
}

fn digit_of(d: u64) -> (c: char)
    requires
        d < 10,
    ensures
        c == digit_char(d as nat),
{
    if d == 0 { '0' }
    else if d == 1 { '1' }
    else if d == 2 { '2' }
    else if d == 3 { '3' }
    else if d == 4 { '4' }
    else if d == 5 { '5' }
    else if d == 6 { '6' }
    else if d == 7 { '7' }
    else if d == 8 { '8' }
    else { '9' }
}

/// Appends the decimal notation of `n`.
pub fn push_decimal(s: &mut String, n: u64)
    ensures
        final(s)@ == old(s)@ + decimal(n as nat),
    decreases n,
{
    if n < 10 {
        push_char(s, digit_of(n));
        proof {
            assert(old(s)@ + decimal(n as nat) =~= old(s)@.push(digit_char(n as nat)));
        }
    } else {
        push_decimal(s, n / 10);
        push_char(s, digit_of(n % 10));
        proof {
            assert(old(s)@ + decimal(n as nat) =~= (old(s)@ + decimal((n / 10) as nat)).push(
                digit_char((n % 10) as nat),
            ));
        }
    }
}

/// Whether `c` is an ASCII decimal digit.
pub open spec fn is_digit(c: char) -> bool {
    '0' <= c && c <= '9'
}

/// The value of an ASCII digit.
pub open spec fn digit_value(c: char) -> nat {
    (c as int - '0' as int) as nat
}

/// The number that a run of ASCII digits spells.
pub open spec fn digits_value(s: Seq<char>) -> nat
    decreases s.len(),
{
    if s.len() == 0 {
        0
    } else {
        digits_value(s.drop_last()) * 10 + digit_value(s.last())
    }
}

pub open spec fn all_digits(s: Seq<char>) -> bool {
    forall|i: int| 0 <= i < s.len() ==> is_digit(#[trigger] s[i])
}

/// What `str::parse::<u32>` gives: an optional `+` sign, then one or more
/// ASCII digits whose value fits in 32 bits.
pub open spec fn parse_u32_spec(s: Seq<char>) -> Option<u32> {
    let body = if s.len() > 0 && s[0] == '+' {
        s.drop_first()
    } else {
        s
    };
    if body.len() > 0 && all_digits(body) && digits_value(body) <= u32::MAX {
        Some(digits_value(body) as u32)
    } else {
        None
    }
}

pub fn parse_u32(s: &Vec<char>) -> (r: Option<u32>)
    ensures
        r == parse_u32_spec(s@),
{
    let start: usize = if s.len() > 0 && s[0] == '+' {
        1
    } else {
        0
    };
    let ghost body = if s@.len() > 0 && s@[0] == '+' {
        s@.drop_first()
    } else {
        s@
    };
    proof {
        assert(body =~= s@.subrange(start as int, s@.len() as int));
    }
    if start >= s.len() {
        return None;
    }
    let mut value: u64 = 0;
    let mut i: usize = start;
    while i < s.len()
        invariant
            start <= i <= s@.len(),
            body =~= s@.subrange(start as int, s@.len() as int),
            body == (if s@.len() > 0 && s@[0] == '+' {
                s@.drop_first()
            } else {
                s@
            }),
            all_digits(s@.subrange(start as int, i as int)),
            value == digits_value(s@.subrange(start as int, i as int)),
            value <= u32::MAX,
        decreases s@.len() - i,
    {
        let c = s[i];
        proof {
            assert(s@.subrange(start as int, i + 1).drop_last() =~= s@.subrange(
                start as int,
                i as int,
            ));
        }
        if !('0' <= c && c <= '9') {
            proof {
                assert(body[i - start] == c);
                assert(!is_digit(body[i - start]));
            }
            return None;
        }
        let d = (c as u32 - '0' as u32) as u64;
        value = value * 10 + d;
        if value > u32::MAX as u64 {
            proof {
                assert(body.take((i - start + 1) as int) =~= s@.subrange(start as int, i + 1));
                if all_digits(body) {
                    lemma_digits_value_grows(body, (i - start + 1) as int);
                }
            }
            return None;
        }
        i += 1;
    }
    proof {
        assert(s@.subrange(start as int, i as int) =~= body);
    }
    Some(value as u32)
}

/// What `str::parse::<u64>` gives: an optional `+` sign, then one or more
/// ASCII digits whose value fits in 64 bits.
pub open spec fn parse_u64_spec(s: Seq<char>) -> Option<u64> {
    let body = if s.len() > 0 && s[0] == '+' {
        s.drop_first()
    } else {
        s
    };
    if body.len() > 0 && all_digits(body) && digits_value(body) <= u64::MAX {
        Some(digits_value(body) as u64)
    } else {
        None
    }
}

pub fn parse_u64(s: &Vec<char>) -> (r: Option<u64>)
    ensures
        r == parse_u64_spec(s@),
{
    let start: usize = if s.len() > 0 && s[0] == '+' {
        1
    } else {
        0
    };
    let ghost body = if s@.len() > 0 && s@[0] == '+' {
        s@.drop_first()
    } else {
        s@
    };
    proof {
        assert(body =~= s@.subrange(start as int, s@.len() as int));
    }
    if start >= s.len() {
        return None;
    }
    let mut value: u128 = 0;
    let mut i: usize = start;
    while i < s.len()
        invariant
            start <= i <= s@.len(),
            body =~= s@.subrange(start as int, s@.len() as int),
            body == (if s@.len() > 0 && s@[0] == '+' {
                s@.drop_first()
            } else {
                s@
            }),
            all_digits(s@.subrange(start as int, i as int)),
            value == digits_value(s@.subrange(start as int, i as int)),
            value <= u64::MAX,
        decreases s@.len() - i,
    {
        let c = s[i];
        proof {
            assert(s@.subrange(start as int, i + 1).drop_last() =~= s@.subrange(
                start as int,
                i as int,
            ));
        }
        if !('0' <= c && c <= '9') {
            proof {
                assert(body[i - start] == c);
                assert(!is_digit(body[i - start]));
            }
            return None;
        }
        let d = (c as u32 - '0' as u32) as u128;
        value = value * 10 + d;
        if value > u64::MAX as u128 {
            proof {
                assert(body.take((i - start + 1) as int) =~= s@.subrange(start as int, i + 1));
                if all_digits(body) {
                    lemma_digits_value_grows(body, (i - start + 1) as int);
                }
            }
            return None;
        }
        i += 1;
    }
    proof {
        assert(s@.subrange(start as int, i as int) =~= body);
    }
    Some(value as u64)
}

proof fn lemma_digits_value_grows(s: Seq<char>, k: int)
    requires
        0 <= k <= s.len(),
        all_digits(s),
    ensures
        digits_value(s.take(k)) <= digits_value(s),
    decreases s.len() - k,
{
    if k < s.len() {
        lemma_digits_value_grows(s, k + 1);
        assert(s.take(k + 1).drop_last() =~= s.take(k));
        assert(is_digit(s[k]));
    } else {
        assert(s.take(k) =~= s);
    }
}

/// The characters that `char::is_whitespace` accepts: Unicode White_Space.
pub open spec fn is_space(c: char) -> bool {
    let v = c as u32;
    (0x9 <= v && v <= 0xd) || v == 0x20 || v == 0x85 || v == 0xa0 || v == 0x1680 || (0x2000 <= v
        && v <= 0x200a) || v == 0x2028 || v == 0x2029 || v == 0x202f || v == 0x205f || v == 0x3000
}

pub fn space(c: char) -> (r: bool)
    ensures
        r == is_space(c),
{
    let v = c as u32;
    (0x9 <= v && v <= 0xd) || v == 0x20 || v == 0x85 || v == 0xa0 || v == 0x1680 || (0x2000 <= v
        && v <= 0x200a) || v == 0x2028 || v == 0x2029 || v == 0x202f || v == 0x205f || v == 0x3000
}

/// `s` without its trailing whitespace.
pub open spec fn trim_end_spec(s: Seq<char>) -> Seq<char>
    decreases s.len(),
{
    if s.len() > 0 && is_space(s.last()) {
        trim_end_spec(s.drop_last())
    } else {
        s
    }
}

/// `s` without its leading whitespace.
pub open spec fn trim_start_spec(s: Seq<char>) -> Seq<char>
    decreases s.len(),
{
    if s.len() > 0 && is_space(s[0]) {
        trim_start_spec(s.drop_first())
    } else {
        s
    }
}

/// `str::trim`: `s` without leading and trailing whitespace.
pub open spec fn trim_spec(s: Seq<char>) -> Seq<char> {
    trim_start_spec(trim_end_spec(s))
}

/// The run of non-whitespace characters at the end of `s`.
pub open spec fn last_run(s: Seq<char>) -> Seq<char>
    decreases s.len(),
{
    if s.len() > 0 && !is_space(s.last()) {
        last_run(s.drop_last()).push(s.last())
    } else {
        Seq::empty()
    }
}

/// `split_whitespace().last()`: the last whitespace-separated word of `s`.
pub open spec fn last_word(s: Seq<char>) -> Option<Seq<char>> {
    let t = trim_end_spec(s);
    if t.len() == 0 {
        None
    } else {
        Some(last_run(t))
    }
}

/// Length of `trim_end_spec(s.take(k))` for the prefix of length `k`.
fn trim_end_len(s: &Vec<char>, k: usize) -> (r: usize)
    requires
        k <= s@.len(),
    ensures
        r <= k,
        trim_end_spec(s@.take(k as int)) =~= s@.take(r as int),
    decreases k,
{
    if k > 0 && space(s[k - 1]) {
        proof {
            assert(s@.take(k as int).drop_last() =~= s@.take(k - 1));
        }
        trim_end_len(s, k - 1)
    } else {
        k
    }
}

/// Start index of `last_run(s.take(k))`.
fn run_start(s: &Vec<char>, k: usize) -> (r: usize)
    requires
        k <= s@.len(),
    ensures
        r <= k,
        last_run(s@.take(k as int)) =~= s@.subrange(r as int, k as int),
    decreases k,
{
    if k > 0 && !space(s[k - 1]) {
        let r = run_start(s, k - 1);
        proof {
            assert(s@.take(k as int).drop_last() =~= s@.take(k - 1));
            assert(s@.subrange(r as int, k as int) =~= s@.subrange(r as int, k - 1).push(
                s@[k - 1],
            ));
        }
        r
    } else {
        k
    }
}

pub fn last_word_of(s: &Vec<char>) -> (r: Option<String>)
    ensures
        match r {
            Some(w) => last_word(s@) == Some(w@),
            None => last_word(s@) is None,
        },
{
    let e = trim_end_len(s, s.len());
    proof {
        assert(s@.take(s@.len() as int) =~= s@);
    }
    if e == 0 {
        return None;
    }
    let b = run_start(s, e);
    proof {
        assert(s@.take(e as int).take(e as int) =~= s@.take(e as int));
        assert(s@.take(e as int) =~= s@.take(e as int));
        lemma_run_start_take(s@, e as int);
    }
    Some(slice_text(s, b, e))
}

proof fn lemma_run_start_take(s: Seq<char>, e: int)
    requires
        0 <= e <= s.len(),
    ensures
        last_run(s.take(e).take(e)) == last_run(s.take(e)),
{
    assert(s.take(e).take(e) =~= s.take(e));
}

/// `str::trim` on a character vector, as a string.
pub fn trim_of(s: &Vec<char>) -> (r: String)
    ensures
        r@ == trim_spec(s@),
{
    let e = trim_end_len(s, s.len());
    proof {
        assert(s@.take(s@.len() as int) =~= s@);
    }
    let mut b: usize = 0;
    while b < e && space(s[b])
        invariant
            b <= e <= s@.len(),
            trim_start_spec(s@.take(e as int)) == trim_start_spec(s@.subrange(b as int, e as int)),
        decreases e - b,
    {
        proof {
            assert(s@.subrange(b + 1, e as int) =~= s@.subrange(b as int, e as int).drop_first());
        }
        b += 1;
    }
    proof {
        if b == 0 {
            assert(s@.subrange(0, e as int) =~= s@.take(e as int));
        }
        assert(s@.take(e as int) =~= s@.subrange(0, e as int));
    }
    slice_text(s, b, e)
}

/// ASCII lowercase of one character.
pub open spec fn ascii_lower(c: char) -> char {
    if 'A' <= c && c <= 'Z' {
        ((c as u32) + 32) as char
    } else {
        c
    }
}

/// `str::eq_ignore_ascii_case`.
pub open spec fn eq_ignore_ascii_case_spec(a: Seq<char>, b: Seq<char>) -> bool {
    a.len() == b.len() && forall|i: int| 0 <= i < a.len() ==> ascii_lower(a[i]) == ascii_lower(b[i])
}

fn lower_ascii_char(c: char) -> (r: u32)
    ensures
        r == ascii_lower(c) as u32,
{
    let v = c as u32;
    if 'A' <= c && c <= 'Z' {
        v + 32
    } else {
        v
    }
}

pub fn eq_ignore_ascii_case(a: &str, b: &str) -> (r: bool)
    ensures
        r == eq_ignore_ascii_case_spec(a@, b@),
{
    let x = chars_of(a);
    let y = chars_of(b);
    if x.len() != y.len() {
        return false;
    }
    let mut i: usize = 0;
    while i < x.len()
        invariant
            i <= x@.len(),
            x@.len() == y@.len(),
            x@ == a@,
            y@ == b@,
            forall|j: int| 0 <= j < i ==> ascii_lower(x@[j]) == ascii_lower(y@[j]),
        decreases x@.len() - i,
    {
        if lower_ascii_char(x[i]) != lower_ascii_char(y[i]) {
            return false;
        }
        i += 1;
    }
    true
}

/// What `str::to_uppercase` gives: Unicode upper-casing, whose tables are std's.
pub uninterp spec fn upper_text(s: Seq<char>) -> Seq<char>;

/// What `str::to_lowercase` gives: Unicode lower-casing, whose tables are std's.
pub uninterp spec fn lower_text(s: Seq<char>) -> Seq<char>;

/// `str::to_uppercase`: claims only that the result is `upper_text` of the
/// text, a function of the text alone; Unicode's case tables are not
/// stated.
#[verifier::external_body]
pub(crate) fn to_upper(s: &str) -> (r: String)
    ensures
        r@ == upper_text(s@),
{
    s.to_uppercase()
}

/// `str::to_lowercase`: claims only that the result is `lower_text` of the
/// text, a function of the text alone; Unicode's case tables are not
/// stated.
#[verifier::external_body]
pub(crate) fn to_lower(s: &str) -> (r: String)
    ensures
        r@ == lower_text(s@),
{
    s.to_lowercase()
}

} // verus!
