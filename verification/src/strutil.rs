//! Character-level scanning utilities shared by the event parser and the
//! HTML differ: substring search, whitespace trimming, splitting, and the
//! attribute-capture patterns used by the structural HTML scanner.
use vstd::prelude::*;
use vstd::string::*;

verus! {

/// The Unicode `White_Space` characters, the set `str::trim` and
/// `str::split_whitespace` strip.
pub open spec fn is_space_char(c: char) -> bool {
    c == ' ' || c == '\t' || c == '\n' || c == '\r' || c == '\u{0b}' || c == '\u{0c}'
        || c == '\u{85}' || c == '\u{a0}' || c == '\u{1680}'
        || (0x2000 <= c as u32 && c as u32 <= 0x200a)
        || c == '\u{2028}' || c == '\u{2029}' || c == '\u{202f}' || c == '\u{205f}'
        || c == '\u{3000}'
}

pub fn is_space(c: char) -> (r: bool)
    ensures
        r == is_space_char(c),
{
    c == ' ' || c == '\t' || c == '\n' || c == '\r' || c == '\u{0b}' || c == '\u{0c}'
        || c == '\u{85}' || c == '\u{a0}' || c == '\u{1680}'
        || (0x2000 <= c as u32 && c as u32 <= 0x200a)
        || c == '\u{2028}' || c == '\u{2029}' || c == '\u{202f}' || c == '\u{205f}'
        || c == '\u{3000}'
}

pub open spec fn is_digit_char(c: char) -> bool {
    48 <= c as u32 && c as u32 <= 57
}

pub fn is_digit(c: char) -> (r: bool)
    ensures
        r == is_digit_char(c),
{
    '0' <= c && c <= '9'
}

/// Word characters as the structural scanner accepts them in tag names.
pub open spec fn is_word_char(c: char) -> bool {
    (97 <= c as u32 && c as u32 <= 122) || (65 <= c as u32 && c as u32 <= 90)
        || is_digit_char(c) || c == '_'
}

pub fn is_word(c: char) -> (r: bool)
    ensures
        r == is_word_char(c),
{
    ('a' <= c && c <= 'z') || ('A' <= c && c <= 'Z') || is_digit(c) || c == '_'
}

/// Whether the character counts as alphanumeric, a Unicode property of the
/// character alone.
pub uninterp spec fn char_alnum(c: char) -> bool;

/// Relies on char::is_alphanumeric: the Unicode Alphabetic and Number
/// properties of the character alone.
#[verifier::external_body]
fn char_is_alphanumeric(c: char) -> (r: bool)
    ensures
        r == char_alnum(c),
{
    c.is_alphanumeric()
}

/// A valid event name holds only alphanumerics, underscores and hyphens.
pub open spec fn valid_event_name(s: Seq<char>) -> bool {
    forall|i: int| 0 <= i < s.len() ==> char_alnum(#[trigger] s[i]) || s[i] == '_' || s[i] == '-'
}

pub fn check_event_name(s: &str) -> (r: bool)
    ensures
        r == valid_event_name(s@),
{
    let n = s.unicode_len();
    let mut i: usize = 0;
    while i < n
        invariant
            n == s@.len(),
            i <= n,
            forall|j: int| 0 <= j < i ==> char_alnum(#[trigger] s@[j]) || s@[j] == '_' || s@[j]
                == '-',
        decreases n - i,
    {
        let c = s.get_char(i);
        if !(char_is_alphanumeric(c) || c == '_' || c == '-') {
            return false;
        }
        i = i + 1;
    }
    true
}

// ---------- equality and substring search ----------

/// Compares two string slices character by character.
pub fn str_eq(a: &str, b: &str) -> (r: bool)
    ensures
        r == (a@ == b@),
{
    let na = a.unicode_len();
    let nb = b.unicode_len();
    if na != nb {
        return false;
    }
    let mut i: usize = 0;
    while i < na
        invariant
            na == a@.len(),
            nb == b@.len(),
            na == nb,
            i <= na,
            forall|j: int| 0 <= j < i ==> a@[j] == b@[j],
        decreases na - i,
    {
        if a.get_char(i) != b.get_char(i) {
            return false;
        }
        i = i + 1;
    }
    proof {
        assert(a@ =~= b@);
    }
    true
}

/// `pat` occurs in `s` starting at position `i`.
pub open spec fn matches_at(s: Seq<char>, pat: Seq<char>, i: int) -> bool {
    0 <= i && i + pat.len() <= s.len() && s.subrange(i, i + pat.len() as int) == pat
}

/// The least position `>= from` where `pat` occurs in `s`.
pub open spec fn find_from(s: Seq<char>, pat: Seq<char>, from: int) -> Option<int>
    decreases s.len() + 1 - from,
{
    if from < 0 || from + pat.len() > s.len() {
        None
    } else if s.subrange(from, from + pat.len() as int) == pat {
        Some(from)
    } else {
        find_from(s, pat, from + 1)
    }
}

pub proof fn lemma_find_from_props(s: Seq<char>, pat: Seq<char>, from: int)
    requires
        0 <= from,
    ensures
        match find_from(s, pat, from) {
            Some(j) => from <= j && matches_at(s, pat, j) && forall|k: int|
                from <= k < j ==> !matches_at(s, pat, k),
            None => forall|k: int| from <= k ==> !matches_at(s, pat, k),
        },
    decreases s.len() + 1 - from,
{
    if from + pat.len() > s.len() {
    } else if s.subrange(from, from + pat.len() as int) == pat {
    } else {
        lemma_find_from_props(s, pat, from + 1);
    }
}

/// The least position `>= from` holding the character `c`.
pub open spec fn find_char_from(s: Seq<char>, c: char, from: int) -> Option<int>
    decreases s.len() - from,
{
    if from < 0 || from >= s.len() {
        None
    } else if s[from] == c {
        Some(from)
    } else {
        find_char_from(s, c, from + 1)
    }
}

pub proof fn lemma_find_char_from_props(s: Seq<char>, c: char, from: int)
    requires
        0 <= from,
    ensures
        match find_char_from(s, c, from) {
            Some(j) => from <= j < s.len() && s[j] == c && forall|k: int|
                from <= k < j ==> s[k] != c,
            None => forall|k: int| from <= k < s.len() ==> s[k] != c,
        },
    decreases s.len() - from,
{
    if from < s.len() && s[from] != c {
        lemma_find_char_from_props(s, c, from + 1);
    }
}

/// Whether `pat` occurs in `s` at position `i`, checked character by character.
pub fn check_match_at(s: &str, pat: &str, i: usize, n: usize, plen: usize) -> (r: bool)
    requires
        n == s@.len(),
        plen == pat@.len(),
        i + plen <= n,
    ensures
        r == matches_at(s@, pat@, i as int),
{
    let mut k: usize = 0;
    while k < plen
        invariant
            n == s@.len(),
            plen == pat@.len(),
            i + plen <= n,
            k <= plen,
            forall|j: int| 0 <= j < k ==> s@[i + j] == pat@[j],
        decreases plen - k,
    {
        if s.get_char(i + k) != pat.get_char(k) {
            assert(s@.subrange(i as int, i + plen) != pat@) by {
                assert(s@.subrange(i as int, i + plen)[k as int] != pat@[k as int]);
            }
            return false;
        }
        k = k + 1;
    }
    proof {
        assert(s@.subrange(i as int, i + plen) =~= pat@);
    }
    true
}

/// The least occurrence of `pat` in `s` at a position `>= from`.
pub fn find_sub(s: &str, pat: &str, from: usize) -> (r: Option<usize>)
    requires
        from <= s@.len(),
    ensures
        match r {
            Some(j) => find_from(s@, pat@, from as int) == Some(j as int),
            None => find_from(s@, pat@, from as int) is None,
        },
{
    let n = s.unicode_len();
    let plen = pat.unicode_len();
    if plen == 0 {
        proof {
            assert(s@.subrange(from as int, from as int) =~= pat@);
        }
        return Some(from);
    }
    if plen > n || from > n - plen {
        proof {
            lemma_find_from_props(s@, pat@, from as int);
            if find_from(s@, pat@, from as int) is Some {
                let j = find_from(s@, pat@, from as int)->0;
                assert(matches_at(s@, pat@, j));
            }
        }
        return None;
    }
    let mut i: usize = from;
    while i <= n - plen
        invariant
            n == s@.len(),
            plen == pat@.len(),
            1 <= plen <= n,
            from <= i,
            i <= n - plen + 1,
            find_from(s@, pat@, from as int) == find_from(s@, pat@, i as int),
        decreases n - plen - i + 1,
    {
        if check_match_at(s, pat, i, n, plen) {
            return Some(i);
        }
        assert(find_from(s@, pat@, i as int) == find_from(s@, pat@, i + 1));
        i = i + 1;
    }
    proof {
        lemma_find_from_props(s@, pat@, i as int);
        if find_from(s@, pat@, i as int) is Some {
            let j = find_from(s@, pat@, i as int)->0;
            assert(matches_at(s@, pat@, j));
        }
    }
    None
}

/// The least position `>= from` holding `c`.
pub fn find_char(s: &str, c: char, from: usize) -> (r: Option<usize>)
    requires
        from <= s@.len(),
    ensures
        match r {
            Some(j) => find_char_from(s@, c, from as int) == Some(j as int),
            None => find_char_from(s@, c, from as int) is None,
        },
{
    let n = s.unicode_len();
    let mut i: usize = from;
    while i < n
        invariant
            n == s@.len(),
            from <= i <= n,
            find_char_from(s@, c, from as int) == find_char_from(s@, c, i as int),
        decreases n - i,
    {
        if s.get_char(i) == c {
            return Some(i);
        }
        i = i + 1;
    }
    None
}

pub fn starts_with(s: &str, pat: &str) -> (r: bool)
    ensures
        r == matches_at(s@, pat@, 0),
{
    let n = s.unicode_len();
    let plen = pat.unicode_len();
    if plen > n {
        return false;
    }
    check_match_at(s, pat, 0, n, plen)
}

pub fn contains_sub(s: &str, pat: &str) -> (r: bool)
    ensures
        r == (find_from(s@, pat@, 0) is Some),
{
    find_sub(s, pat, 0).is_some()
}

// ---------- trimming ----------

/// The least index `>= i` holding a non-whitespace character, or the length.
pub open spec fn first_non_space(s: Seq<char>, i: int) -> int
    decreases s.len() - i,
{
    if i < 0 || i >= s.len() {
        s.len() as int
    } else if !is_space_char(s[i]) {
        i
    } else {
        first_non_space(s, i + 1)
    }
}

/// The end (exclusive) of the last non-whitespace character before `i`.
pub open spec fn last_non_space_end(s: Seq<char>, i: int) -> int
    decreases i,
{
    if i <= 0 {
        0
    } else if i > s.len() {
        last_non_space_end(s, s.len() as int)
    } else if !is_space_char(s[i - 1]) {
        i
    } else {
        last_non_space_end(s, i - 1)
    }
}

/// What `str::trim` returns.
pub open spec fn trim_spec(s: Seq<char>) -> Seq<char> {
    let a = first_non_space(s, 0);
    if a == s.len() {
        Seq::empty()
    } else {
        s.subrange(a, last_non_space_end(s, s.len() as int))
    }
}

pub proof fn lemma_first_non_space_bounds(s: Seq<char>, i: int)
    requires
        0 <= i <= s.len(),
    ensures
        i <= first_non_space(s, i) <= s.len(),
        first_non_space(s, i) < s.len() ==> !is_space_char(s[first_non_space(s, i)]),
    decreases s.len() - i,
{
    if i < s.len() && is_space_char(s[i]) {
        lemma_first_non_space_bounds(s, i + 1);
    }
}

pub proof fn lemma_last_non_space_end_ge(s: Seq<char>, k: int, i: int)
    requires
        0 <= k < i <= s.len(),
        !is_space_char(s[k]),
    ensures
        k + 1 <= last_non_space_end(s, i) <= i,
    decreases i,
{
    if i > k + 1 && is_space_char(s[i - 1]) {
        lemma_last_non_space_end_ge(s, k, i - 1);
    }
}

pub fn trim(s: &str) -> (r: &str)
    ensures
        r@ == trim_spec(s@),
{
    let n = s.unicode_len();
    let mut a: usize = 0;
    while a < n && is_space(s.get_char(a))
        invariant
            n == s@.len(),
            a <= n,
            first_non_space(s@, 0) == first_non_space(s@, a as int),
        decreases n - a,
    {
        a = a + 1;
    }
    assert(first_non_space(s@, 0) == a as int);
    if a == n {
        let r = s.substring_char(n, n);
        proof {
            assert(r@ =~= trim_spec(s@));
        }
        return r;
    }
    let mut b: usize = n;
    while b > 0 && is_space(s.get_char(b - 1))
        invariant
            n == s@.len(),
            b <= n,
            last_non_space_end(s@, n as int) == last_non_space_end(s@, b as int),
        decreases b,
    {
        b = b - 1;
    }
    assert(last_non_space_end(s@, n as int) == b as int);
    proof {
        lemma_last_non_space_end_ge(s@, a as int, n as int);
    }
    s.substring_char(a, b)
}

// ---------- splitting ----------

/// The pieces of `s` from position `i` on, split at `d`, with `cur` the piece
/// accumulated so far.
pub open spec fn split_acc(s: Seq<char>, d: char, i: int, cur: Seq<char>) -> Seq<Seq<char>>
    decreases s.len() - i,
{
    if i < 0 || i >= s.len() {
        seq![cur]
    } else if s[i] == d {
        seq![cur] + split_acc(s, d, i + 1, Seq::empty())
    } else {
        split_acc(s, d, i + 1, cur.push(s[i]))
    }
}

/// What `str::split(d)` yields, in order.
pub open spec fn split_spec(s: Seq<char>, d: char) -> Seq<Seq<char>> {
    split_acc(s, d, 0, Seq::empty())
}

pub fn split_char(s: &str, d: char) -> (r: Vec<String>)
    ensures
        r@.map_values(|t: String| t@) =~~= split_spec(s@, d),
{
    let n = s.unicode_len();
    let mut parts: Vec<String> = Vec::new();
    let mut start: usize = 0;
    let mut i: usize = 0;
    proof {
        assert(s@.subrange(0, 0) =~= Seq::<char>::empty());
        assert(parts@.map_values(|t: String| t@) + split_acc(s@, d, 0, Seq::<char>::empty())
            =~~= split_spec(s@, d));
    }
    while i < n
        invariant
            n == s@.len(),
            start <= i <= n,
            split_spec(s@, d) =~~= parts@.map_values(|t: String| t@) + split_acc(
                s@,
                d,
                i as int,
                s@.subrange(start as int, i as int),
            ),
        decreases n - i,
    {
        let c = s.get_char(i);
        if c == d {
            let ghost old_parts = parts@;
            let piece = s.substring_char(start, i).to_owned();
            parts.push(piece);
            proof {
                assert(parts@.map_values(|t: String| t@) =~~= old_parts.map_values(
                    |t: String| t@,
                ).push(s@.subrange(start as int, i as int)));
            }
            start = i + 1;
            i = i + 1;
            proof {
                assert(s@.subrange(start as int, i as int) =~= Seq::<char>::empty());
            }
        } else {
            i = i + 1;
            proof {
                assert(s@.subrange(start as int, i as int) =~= s@.subrange(
                    start as int,
                    i - 1,
                ).push(s@[i - 1]));
            }
        }
    }
    let ghost old_parts = parts@;
    let piece = s.substring_char(start, n).to_owned();
    parts.push(piece);
    proof {
        assert(parts@.map_values(|t: String| t@) =~~= old_parts.map_values(|t: String| t@).push(
            s@.subrange(start as int, n as int),
        ));
    }
    parts
}

// ---------- whitespace tokens ----------

/// The whitespace-separated tokens of `s` from position `i` on, with `cur`
/// the token accumulated so far.
pub open spec fn tokens_acc(s: Seq<char>, i: int, cur: Seq<char>) -> Seq<Seq<char>>
    decreases s.len() - i,
{
    if i < 0 || i >= s.len() {
        if cur.len() > 0 {
            seq![cur]
        } else {
            seq![]
        }
    } else if is_space_char(s[i]) {
        (if cur.len() > 0 {
            seq![cur]
        } else {
            seq![]
        }) + tokens_acc(s, i + 1, Seq::empty())
    } else {
        tokens_acc(s, i + 1, cur.push(s[i]))
    }
}

/// What `str::split_whitespace` yields, in order.
pub open spec fn tokens_spec(s: Seq<char>) -> Seq<Seq<char>> {
    tokens_acc(s, 0, Seq::empty())
}

pub fn split_tokens(s: &str) -> (r: Vec<String>)
    ensures
        r@.map_values(|t: String| t@) =~~= tokens_spec(s@),
{
    let n = s.unicode_len();
    let mut parts: Vec<String> = Vec::new();
    let mut start: usize = 0;
    let mut i: usize = 0;
    proof {
        assert(s@.subrange(0, 0) =~= Seq::<char>::empty());
        assert(parts@.map_values(|t: String| t@) + tokens_acc(s@, 0, Seq::<char>::empty())
            =~~= tokens_spec(s@));
    }
    while i < n
        invariant
            n == s@.len(),
            start <= i <= n,
            tokens_spec(s@) =~~= parts@.map_values(|t: String| t@) + tokens_acc(
                s@,
                i as int,
                s@.subrange(start as int, i as int),
            ),
        decreases n - i,
    {
        let c = s.get_char(i);
        if is_space(c) {
            if start < i {
                let ghost old_parts = parts@;
                let piece = s.substring_char(start, i).to_owned();
                parts.push(piece);
                proof {
                    assert(parts@.map_values(|t: String| t@) =~~= old_parts.map_values(
                        |t: String| t@,
                    ).push(s@.subrange(start as int, i as int)));
                }
            } else {
                proof {
                    assert(s@.subrange(start as int, i as int) =~= Seq::<char>::empty());
                }
            }
            start = i + 1;
            i = i + 1;
            proof {
                assert(s@.subrange(start as int, i as int) =~= Seq::<char>::empty());
            }
        } else {
            i = i + 1;
            proof {
                assert(s@.subrange(start as int, i as int) =~= s@.subrange(
                    start as int,
                    i - 1,
                ).push(s@[i - 1]));
            }
        }
    }
    if start < n {
        let ghost old_parts = parts@;
        let piece = s.substring_char(start, n).to_owned();
        parts.push(piece);
        proof {
            assert(parts@.map_values(|t: String| t@) =~~= old_parts.map_values(
                |t: String| t@,
            ).push(s@.subrange(start as int, n as int)));
        }
    } else {
        proof {
            assert(s@.subrange(start as int, n as int) =~= Seq::<char>::empty());
        }
    }
    parts
}

// ---------- integer syntax ----------

/// The value of a digit string read in base ten.
pub open spec fn digits_val(s: Seq<char>) -> int
    decreases s.len(),
{
    if s.len() == 0 {
        0
    } else {
        digits_val(s.drop_last()) * 10 + (s.last() as u32 - 48)
    }
}

pub open spec fn all_digits(s: Seq<char>) -> bool {
    forall|i: int| 0 <= i < s.len() ==> is_digit_char(s[i])
}

/// Whether `s` parses as an `i32`: an optional sign, at least one digit, and
/// a value inside the `i32` range.
pub open spec fn is_i32_str(s: Seq<char>) -> bool {
    let neg = s.len() > 0 && s[0] == '-';
    let body = if s.len() > 0 && (s[0] == '+' || s[0] == '-') {
        s.subrange(1, s.len() as int)
    } else {
        s
    };
    body.len() > 0 && all_digits(body) && (if neg {
        digits_val(body) <= 2147483648
    } else {
        digits_val(body) <= 2147483647
    })
}

proof fn lemma_digits_val_nonneg(s: Seq<char>)
    requires
        all_digits(s),
    ensures
        digits_val(s) >= 0,
    decreases s.len(),
{
    if s.len() > 0 {
        assert(all_digits(s.drop_last()));
        lemma_digits_val_nonneg(s.drop_last());
    }
}

pub fn is_i32(s: &str) -> (r: bool)
    ensures
        r == is_i32_str(s@),
{
    let n = s.unicode_len();
    if n == 0 {
        return false;
    }
    let c0 = s.get_char(0);
    let neg = c0 == '-';
    let start: usize = if c0 == '+' || c0 == '-' {
        1
    } else {
        0
    };
    let ghost body = if c0 == '+' || c0 == '-' {
        s@.subrange(1, n as int)
    } else {
        s@
    };
    if start == n {
        return false;
    }
    let mut acc: u64 = 0;
    let mut i: usize = start;
    while i < n
        invariant
            n == s@.len(),
            start <= i <= n,
            start <= 1,
            (start == 1) == (s@[0] == '+' || s@[0] == '-'),
            neg == (s@[0] == '-'),
            body == if start == 1 {
                s@.subrange(1, n as int)
            } else {
                s@
            },
            all_digits(body.subrange(0, i - start)),
            digits_val(body.subrange(0, i - start)) <= 0xffff_ffff ==> acc == digits_val(
                body.subrange(0, i - start),
            ),
            digits_val(body.subrange(0, i - start)) > 0xffff_ffff ==> acc > 0xffff_ffff,
            acc <= 0xffff_ffff * 10 + 9,
        decreases n - i,
    {
        let c = s.get_char(i);
        if !is_digit(c) {
            proof {
                assert(!is_digit_char(body[i - start]));
                assert(!all_digits(body));
                assert(!is_i32_str(s@));
            }
            return false;
        }
        let d = (c as u32 - 48) as u64;
        let ghost prev = body.subrange(0, i - start);
        proof {
            assert(body.subrange(0, i + 1 - start).drop_last() =~= prev);
            assert(body.subrange(0, i + 1 - start).last() == body[i - start]);
            lemma_digits_val_nonneg(prev);
        }
        if acc <= 0xffff_ffff {
            acc = acc * 10 + d;
            proof {
                if digits_val(prev) > 0xffff_ffff {
                    assert(digits_val(prev) * 10 + (body[i - start] as u32 - 48) > 0xffff_ffff)
                        by (nonlinear_arith)
                        requires
                            digits_val(prev) > 0xffff_ffff,
                            body[i - start] as u32 >= 48,
                    ;
                }
            }
        } else {
            proof {
                assert(digits_val(prev) * 10 + (body[i - start] as u32 - 48) > 0xffff_ffff)
                    by (nonlinear_arith)
                    requires
                        digits_val(prev) > 0xffff_ffff,
                        body[i - start] as u32 >= 48,
                ;
            }
        }
        i = i + 1;
    }
    proof {
        assert(body.subrange(0, n - start) =~= body);
    }
    if neg {
        acc <= 2147483648
    } else {
        acc <= 2147483647
    }
}

// ---------- attribute captures ----------

/// The capture of the pattern `pat` followed by text up to the next `"`:
/// what a regular expression `pat([^"]*)"` captures, leftmost occurrence.
pub open spec fn capture_spec(s: Seq<char>, pat: Seq<char>) -> Option<Seq<char>> {
    match find_from(s, pat, 0) {
        None => None,
        Some(i) => match find_char_from(s, '"', i + pat.len() as int) {
            None => None,
            Some(j) => Some(s.subrange(i + pat.len() as int, j)),
        },
    }
}

pub fn capture(s: &str, pat: &str) -> (r: Option<String>)
    ensures
        match r {
            Some(v) => capture_spec(s@, pat@) == Some(v@),
            None => capture_spec(s@, pat@) is None,
        },
{
    let n = s.unicode_len();
    let plen = pat.unicode_len();
    match find_sub(s, pat, 0) {
        None => None,
        Some(i) => {
            proof {
                lemma_find_from_props(s@, pat@, 0);
                assert(i + plen <= n);
            }
            match find_char(s, '"', i + plen) {
                None => None,
                Some(j) => {
                    proof {
                        lemma_find_char_from_props(s@, '"', i + plen);
                    }
                    Some(s.substring_char(i + plen, j).to_owned())
                },
            }
        },
    }
}

/// The capture of `pat([^"]+)"` from position `from` on: the first position
/// where `pat` occurs followed by at least one non-quote character and a
/// closing quote; positions that fail are skipped, as a regular-expression
/// engine skips them.
pub open spec fn capture_nonempty_at(s: Seq<char>, pat: Seq<char>, from: int) -> Option<Seq<char>>
    decreases s.len() - from,
{
    if from < 0 || from > s.len() {
        None
    } else if matches_at(s, pat, from) && (match find_char_from(s, '"', from + pat.len() as int) {
        Some(j) => j > from + pat.len(),
        None => false,
    }) {
        Some(
            s.subrange(
                from + pat.len() as int,
                find_char_from(s, '"', from + pat.len() as int)->0,
            ),
        )
    } else if from >= s.len() {
        None
    } else {
        capture_nonempty_at(s, pat, from + 1)
    }
}

proof fn lemma_capture_nonempty_skip(s: Seq<char>, pat: Seq<char>, a: int, b: int)
    requires
        0 <= a <= b <= s.len(),
        forall|k: int| a <= k < b ==> !matches_at(s, pat, k),
    ensures
        capture_nonempty_at(s, pat, a) == capture_nonempty_at(s, pat, b),
    decreases b - a,
{
    if a < b {
        lemma_capture_nonempty_skip(s, pat, a + 1, b);
    }
}

pub fn capture_nonempty(s: &str, pat: &str) -> (r: Option<String>)
    ensures
        match r {
            Some(v) => capture_nonempty_at(s@, pat@, 0) == Some(v@),
            None => capture_nonempty_at(s@, pat@, 0) is None,
        },
{
    let n = s.unicode_len();
    let plen = pat.unicode_len();
    let mut from: usize = 0;
    while from <= n
        invariant
            n == s@.len(),
            plen == pat@.len(),
            from <= n + 1,
            capture_nonempty_at(s@, pat@, 0) == capture_nonempty_at(s@, pat@, from as int),
        decreases n + 1 - from,
    {
        match find_sub(s, pat, from) {
            None => {
                proof {
                    lemma_find_from_props(s@, pat@, from as int);
                    lemma_capture_nonempty_skip(s@, pat@, from as int, s@.len() as int);
                }
                return None;
            },
            Some(i) => {
                proof {
                    lemma_find_from_props(s@, pat@, from as int);
                    lemma_capture_nonempty_skip(s@, pat@, from as int, i as int);
                }
                match find_char(s, '"', i + plen) {
                    None => {
                        proof {
                            lemma_find_char_from_props(s@, '"', i + plen);
                        }
                        // No closing quote remains, so no later occurrence of a
                        // pattern ending in a quote can complete either; but to
                        // mirror the scan faithfully we advance position by
                        // position.
                        if i >= n {
                            proof {
                                lemma_capture_nonempty_skip(
                                    s@,
                                    pat@,
                                    i as int,
                                    s@.len() as int,
                                );
                            }
                            return None;
                        }
                        from = i + 1;
                    },
                    Some(j) => {
                        proof {
                            lemma_find_char_from_props(s@, '"', i + plen);
                        }
                        if j > i + plen {
                            return Some(s.substring_char(i + plen, j).to_owned());
                        }
                        from = i + 1;
                    },
                }
            },
        }
    }
    proof {
        assert(capture_nonempty_at(s@, pat@, from as int) is None);
    }
    None
}

// ---------- string-vector helpers ----------

/// A copy of a vector of strings.
pub fn clone_string_vec(v: &Vec<String>) -> (r: Vec<String>)
    ensures
        r@.map_values(|t: String| t@) == v@.map_values(|t: String| t@),
{
    let mut out: Vec<String> = Vec::new();
    let mut i: usize = 0;
    while i < v.len()
        invariant
            i <= v@.len(),
            out@.len() == i,
            forall|j: int| 0 <= j < i ==> (#[trigger] out@[j])@ == v@[j]@,
        decreases v@.len() - i,
    {
        let piece = v[i].clone();
        out.push(piece);
        i = i + 1;
    }
    proof {
        assert(out@.map_values(|t: String| t@) =~= v@.map_values(|t: String| t@));
    }
    out
}

/// Whether some element of `v` equals `s`.
pub fn vec_contains_str(v: &Vec<String>, s: &str) -> (r: bool)
    ensures
        r == v@.map_values(|t: String| t@).contains(s@),
{
    let mut i: usize = 0;
    while i < v.len()
        invariant
            i <= v@.len(),
            forall|j: int| 0 <= j < i ==> v@[j]@ != s@,
        decreases v@.len() - i,
    {
        if str_eq(v[i].as_str(), s) {
            assert(v@.map_values(|t: String| t@)[i as int] == s@);
            return true;
        }
        i = i + 1;
    }
    proof {
        let mv = v@.map_values(|t: String| t@);
        if mv.contains(s@) {
            let j = choose|j: int| 0 <= j < mv.len() && mv[j] == s@;
            assert(v@[j]@ == s@);
        }
    }
    false
}

/// The sequence with every occurrence of `x` removed, order kept.
pub open spec fn remove_all_spec(s: Seq<Seq<char>>, x: Seq<char>) -> Seq<Seq<char>>
    decreases s.len(),
{
    if s.len() == 0 {
        s
    } else {
        let rest = remove_all_spec(s.drop_last(), x);
        if s.last() == x {
            rest
        } else {
            rest.push(s.last())
        }
    }
}

pub proof fn lemma_remove_all_props(s: Seq<Seq<char>>, x: Seq<char>)
    ensures
        forall|t: Seq<char>| #[trigger]
            remove_all_spec(s, x).contains(t) <==> (s.contains(t) && t != x),
        remove_all_spec(s, x).len() <= s.len(),
    decreases s.len(),
{
    if s.len() > 0 {
        lemma_remove_all_props(s.drop_last(), x);
        assert forall|t: Seq<char>| #[trigger]
            remove_all_spec(s, x).contains(t) implies (s.contains(t) && t != x) by {
            if remove_all_spec(s.drop_last(), x).contains(t) {
                let i = choose|i: int|
                    0 <= i < s.drop_last().len() && s.drop_last()[i] == t;
                assert(s[i] == t);
            } else {
                assert(t == s.last());
                assert(s[s.len() - 1] == t);
            }
        }
        assert forall|t: Seq<char>| s.contains(t) && t != x implies #[trigger] remove_all_spec(
            s,
            x,
        ).contains(t) by {
            let i = choose|i: int| 0 <= i < s.len() && s[i] == t;
            if i < s.len() - 1 {
                assert(s.drop_last()[i] == t);
                assert(remove_all_spec(s.drop_last(), x).contains(t));
                let j = choose|j: int|
                    0 <= j < remove_all_spec(s.drop_last(), x).len() && remove_all_spec(
                        s.drop_last(),
                        x,
                    )[j] == t;
                assert(remove_all_spec(s, x)[j] == t);
            } else {
                assert(t == s.last());
                let r = remove_all_spec(s, x);
                assert(r[r.len() - 1] == t);
            }
        }
    }
}

/// Removing an absent element changes nothing.
pub proof fn lemma_remove_all_id(s: Seq<Seq<char>>, x: Seq<char>)
    requires
        !s.contains(x),
    ensures
        remove_all_spec(s, x) == s,
    decreases s.len(),
{
    if s.len() > 0 {
        assert(!s.drop_last().contains(x)) by {
            if s.drop_last().contains(x) {
                let i = choose|i: int| 0 <= i < s.drop_last().len() && s.drop_last()[i] == x;
                assert(s[i] == x);
            }
        }
        lemma_remove_all_id(s.drop_last(), x);
        assert(s[s.len() - 1] != x);
        assert(remove_all_spec(s, x) =~= s);
    }
}

/// Removes every element equal to `s`, keeping the order of the rest.
pub fn vec_remove_str(v: &mut Vec<String>, s: &str)
    ensures
        final(v)@.map_values(|t: String| t@) == remove_all_spec(
            old(v)@.map_values(|t: String| t@),
            s@,
        ),
{
    let ghost orig = v@.map_values(|t: String| t@);
    let mut out: Vec<String> = Vec::new();
    let mut i: usize = 0;
    proof {
        assert(orig.subrange(0, 0) =~= Seq::<Seq<char>>::empty());
        assert(out@.map_values(|t: String| t@) =~~= remove_all_spec(orig.subrange(0, 0), s@));
    }
    while i < v.len()
        invariant
            orig == v@.map_values(|t: String| t@),
            i <= v@.len(),
            out@.map_values(|t: String| t@) =~~= remove_all_spec(
                orig.subrange(0, i as int),
                s@,
            ),
        decreases v@.len() - i,
    {
        proof {
            assert(orig.subrange(0, i + 1).drop_last() =~= orig.subrange(0, i as int));
            assert(orig.subrange(0, i + 1).last() == orig[i as int]);
            assert(v@[i as int]@ == orig[i as int]);
        }
        if !str_eq(v[i].as_str(), s) {
            let ghost before = out@;
            let piece = v[i].clone();
            out.push(piece);
            proof {
                assert(out@.map_values(|t: String| t@) =~~= before.map_values(
                    |t: String| t@,
                ).push(orig[i as int]));
            }
        }
        i = i + 1;
    }
    proof {
        assert(orig.subrange(0, orig.len() as int) =~= orig);
    }
    *v = out;
}

} // verus!
