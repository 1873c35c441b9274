use vstd::prelude::*;

verus! {

/// Cookie headers longer than this are not parsed at all.
pub const MAX_COOKIE_HEADER_SIZE: usize = 4096;

/// `pow_cchal=`, a name under which the challenge token comes back.
pub open spec fn cchal_marker() -> Seq<u8> {
    seq![112u8, 111u8, 119u8, 95u8, 99u8, 99u8, 104u8, 97u8, 108u8, 61u8]
}

/// `pow_resp=`, the name under which the page script echoes the challenge.
pub open spec fn resp_marker() -> Seq<u8> {
    seq![112u8, 111u8, 119u8, 95u8, 114u8, 101u8, 115u8, 112u8, 61u8]
}

/// `pow_magic=`, the name of the solution cookie.
pub open spec fn magic_marker() -> Seq<u8> {
    seq![112u8, 111u8, 119u8, 95u8, 109u8, 97u8, 103u8, 105u8, 99u8, 61u8]
}

/// Position `i` of `s` is where a cookie may start: the start of the header,
/// or after a `;` and any number of spaces (only spaces before the first
/// cookie).
pub open spec fn at_cookie_start(s: Seq<u8>, i: int) -> bool
    decreases i,
{
    if i <= 0 {
        true
    } else {
        s[i - 1] == 59u8 || (s[i - 1] == 32u8 && at_cookie_start(s, i - 1))
    }
}

/// The bytes of `m` stand at position `i` of `s`.
pub open spec fn bytes_at(s: Seq<u8>, i: int, m: Seq<u8>) -> bool {
    &&& 0 <= i
    &&& i + m.len() <= s.len()
    &&& s.subrange(i, i + m.len()) == m
}

/// The cookie name `m` (with its `=`) starts at position `i` of `s`.
pub open spec fn marker_at(s: Seq<u8>, i: int, m: Seq<u8>) -> bool {
    bytes_at(s, i, m) && at_cookie_start(s, i)
}

/// A challenge cookie starts at `i` (when `challenge`), or a magic cookie
/// (when not).
pub open spec fn cookie_at(s: Seq<u8>, i: int, challenge: bool) -> bool {
    if challenge {
        marker_at(s, i, cchal_marker()) || marker_at(s, i, resp_marker())
    } else {
        marker_at(s, i, magic_marker())
    }
}

/// Where the value of the cookie that starts at `i` begins.
pub open spec fn value_start(s: Seq<u8>, i: int, challenge: bool) -> int {
    if challenge && marker_at(s, i, resp_marker()) {
        i + resp_marker().len()
    } else {
        i + 10
    }
}

/// The first position at or after `from` where a cookie of the kind starts.
pub open spec fn find_cookie(s: Seq<u8>, from: int, challenge: bool) -> Option<int>
    decreases s.len() - from,
{
    if from < 0 || from >= s.len() {
        None
    } else if cookie_at(s, from, challenge) {
        Some(from)
    } else {
        find_cookie(s, from + 1, challenge)
    }
}

/// The index of the first `;` at or after `from`, or the length of `s`.
pub open spec fn value_end(s: Seq<u8>, from: int) -> int
    decreases s.len() - from,
{
    if from < 0 || from >= s.len() {
        s.len() as int
    } else if s[from] == 59u8 {
        from
    } else {
        value_end(s, from + 1)
    }
}

/// `s` up to its first `;`.
pub open spec fn cut(s: Seq<u8>) -> Seq<u8> {
    s.subrange(0, value_end(s, 0))
}

/// The value of a cookie whose value begins at `start`.
pub open spec fn value_from(s: Seq<u8>, start: int) -> Seq<u8> {
    cut(s.subrange(start, s.len() as int))
}

/// An ASCII decimal digit.
pub open spec fn is_digit(c: u8) -> bool {
    48 <= c <= 57
}

/// How many decimal digits follow one another from `from` on.
pub open spec fn digit_run(s: Seq<u8>, from: int) -> nat
    decreases s.len() - from,
{
    if 0 <= from < s.len() && is_digit(s[from]) {
        1 + digit_run(s, from + 1)
    } else {
        0
    }
}

/// The number that a string of decimal digits writes.
pub open spec fn decimal_value(d: Seq<u8>) -> int
    decreases d.len(),
{
    if d.len() == 0 {
        0
    } else {
        decimal_value(d.drop_last()) * 10 + (d.last() - 48)
    }
}

/// The `u32` that `s` starts with: an optional `+` or `-`, then the longest
/// run of decimal digits, the rest ignored. `None` when `s` starts with
/// neither a sign nor a digit, when the number exceeds `u32::MAX`, or when it
/// is negative and not zero.
pub open spec fn leading_u32(s: Seq<u8>) -> Option<u32> {
    let signed = s.len() > 0 && (s[0] == 43u8 || s[0] == 45u8);
    let off: int = if signed {
        1
    } else {
        0
    };
    let n = digit_run(s, off);
    let v = decimal_value(s.subrange(off, off + n));
    if off + n == 0 {
        None
    } else if signed && s[0] == 45u8 {
        if v == 0 {
            Some(0u32)
        } else {
            None
        }
    } else if v <= u32::MAX {
        Some(v as u32)
    } else {
        None
    }
}

/// What a cookie header yields: the challenge token and the solution, each
/// taken from the first cookie of its name. `None` when the header is
/// longer than `MAX_COOKIE_HEADER_SIZE`, when either cookie is missing, or
/// when the first solution value does not read as a `u32`.
pub open spec fn cookies_of(s: Seq<u8>) -> Option<(Seq<u8>, u32)> {
    if s.len() > MAX_COOKIE_HEADER_SIZE {
        None
    } else {
        match (find_cookie(s, 0, true), find_cookie(s, 0, false)) {
            (Some(i), Some(j)) => match leading_u32(value_from(s, j + 10)) {
                Some(m) => Some((value_from(s, value_start(s, i, true)), m)),
                None => None,
            },
            _ => None,
        }
    }
}

/// The decimal digits of `n`, most significant first, without leading
/// zeros.
pub open spec fn decimal_text(n: nat) -> Seq<u8>
    decreases n,
{
    if n < 10 {
        seq![(48 + n) as u8]
    } else {
        decimal_text(n / 10).push((48 + n % 10) as u8)
    }
}

/// A lower-case hexadecimal digit.
pub open spec fn is_lower_hex(c: u8) -> bool {
    48 <= c <= 57 || 97 <= c <= 102
}

/// The cookie header that the page script sends back: the challenge token,
/// then the solution in decimal.
pub open spec fn solution_header(token: Seq<u8>, magic: u32) -> Seq<u8> {
    cchal_marker() + token + seq![59u8, 32u8] + magic_marker() + decimal_text(magic as nat)
}

proof fn lemma_decimal_text_digits(n: nat)
    ensures
        decimal_text(n).len() >= 1,
        forall|i: int| 0 <= i < decimal_text(n).len() ==> is_digit(#[trigger] decimal_text(n)[i]),
        decimal_value(decimal_text(n)) == n,
    decreases n,
{
    let d = decimal_text(n);
    if n >= 10 {
        lemma_decimal_text_digits(n / 10);
        assert(d.drop_last() =~= decimal_text(n / 10));
        assert(d.last() == (48 + n % 10) as u8);
        assert(d.last() - 48 == n % 10);
        assert(decimal_value(d) == decimal_value(d.drop_last()) * 10 + (d.last() - 48));
        assert(n == (n / 10) * 10 + n % 10);
    } else {
        assert(d.drop_last() =~= Seq::<u8>::empty());
        assert(d.last() - 48 == n);
        assert(decimal_value(d) == decimal_value(d.drop_last()) * 10 + (d.last() - 48));
    }
}

spec fn pow10(k: nat) -> nat
    decreases k,
{
    if k == 0 {
        1
    } else {
        10 * pow10((k - 1) as nat)
    }
}

proof fn lemma_decimal_text_len(n: nat, k: nat)
    requires
        1 <= k,
        n < pow10(k),
    ensures
        decimal_text(n).len() <= k,
    decreases k,
{
    if n >= 10 {
        if k == 1 {
            assert(pow10(1) == 10 * pow10(0));
        } else {
            assert(pow10(k) == 10 * pow10((k - 1) as nat));
            lemma_decimal_text_len(n / 10, (k - 1) as nat);
        }
    }
}

proof fn lemma_decimal_text_short(n: nat)
    requires
        n <= u32::MAX,
    ensures
        decimal_text(n).len() <= 10,
{
    reveal_with_fuel(pow10, 11);
    assert(pow10(10) == 10000000000);
    lemma_decimal_text_len(n, 10);
}

proof fn lemma_digit_run_all(d: Seq<u8>, k: int)
    requires
        0 <= k <= d.len(),
        forall|i: int| 0 <= i < d.len() ==> is_digit(#[trigger] d[i]),
    ensures
        digit_run(d, k) == d.len() - k,
    decreases d.len() - k,
{
    if k < d.len() {
        lemma_digit_run_all(d, k + 1);
    }
}

proof fn lemma_value_end_at(x: Seq<u8>, k: int, end: int)
    requires
        0 <= k <= end <= x.len(),
        end == x.len() || x[end] == 59u8,
        forall|i: int| k <= i < end ==> x[i] != 59u8,
    ensures
        value_end(x, k) == end,
    decreases end - k,
{
    if k < end {
        lemma_value_end_at(x, k + 1, end);
    }
}

/// The header that the page script sends back yields the token and the
/// solution it was built from, for any token of lower-case hexadecimal
/// digits that keeps the header within `MAX_COOKIE_HEADER_SIZE`.
pub proof fn lemma_solution_header(token: Seq<u8>, magic: u32)
    requires
        forall|i: int| 0 <= i < token.len() ==> is_lower_hex(#[trigger] token[i]),
        token.len() + 32 <= MAX_COOKIE_HEADER_SIZE,
    ensures
        cookies_of(solution_header(token, magic)) == Some((token, magic)),
{
    let h = solution_header(token, magic);
    let d = decimal_text(magic as nat);
    let t = token.len() as int;
    let j = t + 12;
    lemma_decimal_text_digits(magic as nat);
    lemma_decimal_text_short(magic as nat);
    assert(h.len() == j + 10 + d.len());
    assert(forall|i: int| 0 <= i < 10 ==> h[i] == cchal_marker()[i]);
    assert(forall|i: int| 0 <= i < t ==> h[10 + i] == token[i]);
    assert(h[10 + t] == 59u8 && h[11 + t] == 32u8);
    assert(forall|i: int| 0 <= i < 10 ==> h[j + i] == magic_marker()[i]);
    assert(forall|i: int| 0 <= i < d.len() ==> h[j + 10 + i] == d[i]);
    // The challenge cookie opens the header.
    assert(h.subrange(0, 10) =~= cchal_marker());
    assert(cookie_at(h, 0, true));
    lemma_find_first(h, 0, 0, true);
    assert(h.subrange(0, 9)[4] != resp_marker()[4]);
    assert(!marker_at(h, 0, resp_marker()));
    let x = h.subrange(10, h.len() as int);
    assert(x[t] == 59u8);
    assert forall|i: int| 0 <= i < t implies x[i] != 59u8 by {
        assert(x[i] == token[i]);
    }
    lemma_value_end_at(x, 0, t);
    assert(cut(x) =~= token);
    // The first solution cookie comes after the token.
    assert(at_cookie_start(h, j - 1));
    assert(at_cookie_start(h, j));
    assert(h.subrange(j, j + 10) =~= magic_marker());
    assert(cookie_at(h, j, false));
    assert forall|k: int| 0 <= k < j implies !#[trigger] cookie_at(h, k, false) by {
        if k == 0 {
            assert(h.subrange(0, 10)[4] != magic_marker()[4]);
        } else if k + 10 <= h.len() {
            assert(h.subrange(k, k + 10)[0] == h[k]);
            if k < 10 {
                assert(h[k] == cchal_marker()[k]);
            } else if k < 10 + t {
                assert(h[k] == token[k - 10]);
            }
            assert(h[k] != 112u8);
        }
    }
    lemma_find_first(h, 0, j, false);
    let y = h.subrange(j + 10, h.len() as int);
    assert(y =~= d);
    lemma_value_end_at(y, 0, y.len() as int);
    assert(cut(y) =~= d);
    lemma_digit_run_all(d, 0);
    assert(d.subrange(0, d.len() as int) =~= d);
}

/// Relies on `atoi::atoi::<u32>`: an optional sign, then the leading decimal
/// digits, checked against overflow.
#[verifier::external_body]
fn parse_u32(text: &[u8]) -> (r: Option<u32>)
    ensures
        r == leading_u32(text@),
{
    atoi::atoi::<u32>(text)
}

proof fn lemma_find_first(s: Seq<u8>, from: int, k: int, challenge: bool)
    requires
        0 <= from <= k,
        cookie_at(s, k, challenge),
        k < s.len(),
        forall|j: int| from <= j < k ==> !#[trigger] cookie_at(s, j, challenge),
    ensures
        find_cookie(s, from, challenge) == Some(k),
    decreases k - from,
{
    if from < k {
        lemma_find_first(s, from + 1, k, challenge);
    }
}

proof fn lemma_find_none(s: Seq<u8>, from: int, challenge: bool)
    requires
        0 <= from,
        forall|j: int| from <= j < s.len() ==> !#[trigger] cookie_at(s, j, challenge),
    ensures
        find_cookie(s, from, challenge).is_none(),
    decreases s.len() - from,
{
    if from < s.len() {
        lemma_find_none(s, from + 1, challenge);
    }
}

/// The bytes of `m` stand at position `i` of `s`.
fn bytes_at_exec(s: &[u8], i: usize, m: &[u8]) -> (r: bool)
    ensures
        r == bytes_at(s@, i as int, m@),
{
    if i > s.len() || m.len() > s.len() - i {
        return false;
    }
    let mut k: usize = 0;
    while k < m.len()
        invariant
            k <= m@.len(),
            i as int + m@.len() as int <= s@.len() as int,
            s@.len() <= usize::MAX,
            forall|j: int| 0 <= j < k ==> s@[i + j] == m@[j],
        decreases m@.len() - k,
    {
        if s[i + k] != m[k] {
            assert(s@.subrange(i as int, i + m@.len())[k as int] != m@[k as int]);
            return false;
        }
        k = k + 1;
    }
    assert(s@.subrange(i as int, i + m@.len()) =~= m@);
    true
}

/// The part of `input` before its first `;`, or all of it.
pub fn cut_cookie(input: &[u8]) -> (r: &[u8])
    ensures
        r@ == cut(input@),
        r@.len() <= input@.len(),
{
    let mut i: usize = 0;
    while i < input.len()
        invariant
            i <= input@.len(),
            value_end(input@, 0) == value_end(input@, i as int),
        decreases input@.len() - i,
    {
        if input[i] == 59u8 {
            return &input[0..i];
        }
        i = i + 1;
    }
    input
}

/// Scans a raw cookie header once for the challenge token (cookie
/// `pow_resp`, or `pow_cchal`) and the solution (cookie `pow_magic`), each
/// value running to the next `;` or the end. A name counts only where a
/// cookie starts (the header's start, or after `;` and spaces), and the
/// first cookie of each name is taken.
pub fn parse_cookies<'a>(source: &'a [u8]) -> (r: Option<(&'a [u8], u32)>)
    ensures
        match (r, cookies_of(source@)) {
            (Some((c, m)), Some((sc, sm))) => c@ == sc && m == sm,
            (None, None) => true,
            _ => false,
        },
        source@.len() > MAX_COOKIE_HEADER_SIZE ==> r.is_none(),
        r matches Some((c, _)) ==> c@.len() <= MAX_COOKIE_HEADER_SIZE,
{
    if source.len() > MAX_COOKIE_HEADER_SIZE {
        return None;
    }
    let cchal: Vec<u8> = vec![112u8, 111u8, 119u8, 95u8, 99u8, 99u8, 104u8, 97u8, 108u8, 61u8];
    let resp: Vec<u8> = vec![112u8, 111u8, 119u8, 95u8, 114u8, 101u8, 115u8, 112u8, 61u8];
    let magic_name: Vec<u8> = vec![112u8, 111u8, 119u8, 95u8, 109u8, 97u8, 103u8, 105u8, 99u8, 61u8];
    assert(cchal@ =~= cchal_marker());
    assert(resp@ =~= resp_marker());
    assert(magic_name@ =~= magic_marker());
    let ghost s = source@;
    let mut challenge: Option<&'a [u8]> = None;
    let mut magic: Option<u32> = None;
    let ghost mut ci: int = 0;
    let ghost mut mi: int = 0;
    let mut i: usize = 0;
    let mut start = true;
    while i < source.len()
        invariant_except_break
            i <= s.len(),
            start == at_cookie_start(s, i as int),
            s == source@,
            cchal@ == cchal_marker(),
            resp@ == resp_marker(),
            magic_name@ == magic_marker(),
            s.len() <= MAX_COOKIE_HEADER_SIZE,
            challenge.is_none() ==> forall|j: int| 0 <= j < i ==> !#[trigger] cookie_at(s, j, true),
            challenge.is_some() ==> {
                &&& 0 <= ci < i
                &&& cookie_at(s, ci, true)
                &&& forall|j: int| 0 <= j < ci ==> !#[trigger] cookie_at(s, j, true)
                &&& challenge.unwrap()@ == value_from(s, value_start(s, ci, true))
                &&& challenge.unwrap()@.len() <= s.len()
            },
            magic.is_none() ==> forall|j: int| 0 <= j < i ==> !#[trigger] cookie_at(s, j, false),
            magic.is_some() ==> {
                &&& 0 <= mi < i
                &&& cookie_at(s, mi, false)
                &&& forall|j: int| 0 <= j < mi ==> !#[trigger] cookie_at(s, j, false)
                &&& leading_u32(value_from(s, mi + 10)) == magic
            },
        ensures
            s == source@,
            s.len() <= MAX_COOKIE_HEADER_SIZE,
            challenge.is_none() ==> forall|j: int| 0 <= j < s.len() ==> !#[trigger] cookie_at(s, j, true),
            challenge.is_some() ==> {
                &&& 0 <= ci < s.len()
                &&& cookie_at(s, ci, true)
                &&& forall|j: int| 0 <= j < ci ==> !#[trigger] cookie_at(s, j, true)
                &&& challenge.unwrap()@ == value_from(s, value_start(s, ci, true))
                &&& challenge.unwrap()@.len() <= s.len()
            },
            magic.is_none() ==> forall|j: int| 0 <= j < s.len() ==> !#[trigger] cookie_at(s, j, false),
            magic.is_some() ==> {
                &&& 0 <= mi < s.len()
                &&& cookie_at(s, mi, false)
                &&& forall|j: int| 0 <= j < mi ==> !#[trigger] cookie_at(s, j, false)
                &&& leading_u32(value_from(s, mi + 10)) == magic
            },
        decreases s.len() - i,
    {
        if challenge.is_none() {
            let at_cchal = start && bytes_at_exec(source, i, cchal.as_slice());
            let at_resp = start && bytes_at_exec(source, i, resp.as_slice());
            if at_cchal || at_resp {
                let start: usize = if at_resp {
                    i + 9
                } else {
                    i + 10
                };
                challenge = Some(cut_cookie(&source[start..source.len()]));
                proof {
                    ci = i as int;
                }
            }
        }
        if magic.is_none() && start && bytes_at_exec(source, i, magic_name.as_slice()) {
            let parsed = parse_u32(cut_cookie(&source[i + 10..source.len()]));
            if parsed.is_none() {
                proof {
                    lemma_find_first(s, 0, i as int, false);
                }
                return None;
            }
            magic = parsed;
            proof {
                mi = i as int;
            }
        }
        start = source[i] == 59u8 || (source[i] == 32u8 && start);
        i = i + 1;
        if challenge.is_some() && magic.is_some() {
            break;
        }
    }
    match (challenge, magic) {
        (Some(c), Some(m)) => {
            proof {
                lemma_find_first(s, 0, ci, true);
                lemma_find_first(s, 0, mi, false);
            }
            Some((c, m))
        },
        _ => {
            proof {
                if challenge.is_none() {
                    lemma_find_none(s, 0, true);
                } else {
                    lemma_find_none(s, 0, false);
                }
            }
            None
        },
    }
}

} // verus!
