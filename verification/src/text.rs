//! Character-level text helpers: whitespace trimming, ASCII lower-casing,
//! substring search and decimal rendering, each with its specification.
use vstd::prelude::*;

verus! {

broadcast use vstd::string::group_string_axioms;

/// The Unicode `White_Space` property, which is what `char::is_whitespace`
/// (and so `str::trim`) tests.
pub open spec fn is_ws(c: char) -> bool {
    let u = c as u32;
    ||| 0x09 <= u <= 0x0D
    ||| u == 0x20
    ||| u == 0x85
    ||| u == 0xA0
    ||| u == 0x1680
    ||| 0x2000 <= u <= 0x200A
    ||| u == 0x2028
    ||| u == 0x2029
    ||| u == 0x202F
    ||| u == 0x205F
    ||| u == 0x3000
}

/// Whether `c` is Unicode white space.
pub fn char_is_ws(c: char) -> (b: bool)
    ensures
        b == is_ws(c),
{
    let u = c as u32;
    (0x09 <= u && u <= 0x0D) || u == 0x20 || u == 0x85 || u == 0xA0 || u == 0x1680 || (0x2000
        <= u && u <= 0x200A) || u == 0x2028 || u == 0x2029 || u == 0x202F || u == 0x205F || u
        == 0x3000
}

/// `s` without its leading white space.
pub open spec fn trim_start(s: Seq<char>) -> Seq<char>
    decreases s.len(),
{
    if s.len() > 0 && is_ws(s[0]) {
        trim_start(s.drop_first())
    } else {
        s
    }
}

/// `s` without its trailing white space.
pub open spec fn trim_end(s: Seq<char>) -> Seq<char>
    decreases s.len(),
{
    if s.len() > 0 && is_ws(s.last()) {
        trim_end(s.drop_last())
    } else {
        s
    }
}

/// `s` without leading or trailing white space, as `str::trim` gives it.
pub open spec fn trim(s: Seq<char>) -> Seq<char> {
    trim_end(trim_start(s))
}

/// An ASCII upper-case letter mapped to lower case; any other char unchanged.
pub open spec fn ascii_lower(c: char) -> char {
    if 'A' <= c && c <= 'Z' {
        ((c as u32) + 32) as char
    } else {
        c
    }
}

/// `s` with every ASCII upper-case letter lower-cased (`to_ascii_lowercase`).
pub open spec fn lower(s: Seq<char>) -> Seq<char> {
    s.map_values(|c: char| ascii_lower(c))
}

/// Whether `pat` occurs in `s` starting at position `i`.
pub open spec fn occurs_at(s: Seq<char>, pat: Seq<char>, i: int) -> bool {
    0 <= i && i + pat.len() <= s.len() && s.subrange(i, i + pat.len()) == pat
}

/// Whether `pat` occurs anywhere in `s` (`str::contains`).
pub open spec fn contains(s: Seq<char>, pat: Seq<char>) -> bool {
    exists|i: int| occurs_at(s, pat, i)
}

/// `r` is the first position at or after `from` where `pat` occurs in `s`,
/// or `None` when there is none.
pub open spec fn is_first_occurrence(s: Seq<char>, pat: Seq<char>, from: int, r: Option<int>) -> bool {
    match r {
        Some(i) => from <= i && occurs_at(s, pat, i) && forall|j: int|
            from <= j < i ==> !occurs_at(s, pat, j),
        None => forall|j: int| from <= j ==> !occurs_at(s, pat, j),
    }
}

/// Whether `s` begins with `pre`.
pub open spec fn starts_with(s: Seq<char>, pre: Seq<char>) -> bool {
    pre.len() <= s.len() && s.subrange(0, pre.len() as int) == pre
}

/// The decimal digit for `d < 10`.
pub open spec fn digit_char(d: nat) -> char {
    (('0' as u32) + d) as char
}

/// The decimal rendering of `n`, without sign or leading zeros ("0" for zero).
pub open spec fn decimal(n: nat) -> Seq<char>
    decreases n,
{
    if n < 10 {
        seq![digit_char(n)]
    } else {
        decimal(n / 10).push(digit_char(n % 10))
    }
}

/// The chars of `s`, in order.
pub fn chars_of(s: &str) -> (v: Vec<char>)
    ensures
        v@ == s@,
{
    let mut v: Vec<char> = Vec::new();
    let mut it = s.chars();
    loop
        invariant
            v@ + vstd::std_specs::iter::IteratorSpec::remaining(&it) == s@,
            vstd::std_specs::iter::IteratorSpec::decrease(&it) is Some,
        ensures
            v@ == s@,
        decreases vstd::std_specs::iter::IteratorSpec::decrease(&it)->0,
    {
        let ghost before = vstd::std_specs::iter::IteratorSpec::remaining(&it);
        match it.next() {
            Some(c) => {
                proof {
                    assert(v@.push(c) + vstd::std_specs::iter::IteratorSpec::remaining(&it) =~= v@ + before);
                }
                v.push(c);
            },
            None => {
                proof {
                    assert(v@ + before =~= v@);
                }
                break;
            },
        }
    }
    v
}

/// Append one char (`String::push`).
#[verifier::external_body]
pub(crate) fn push_char(s: &mut String, c: char)
    ensures
        final(s)@ == old(s)@.push(c),
{
    s.push(c);
}

/// A string holding `chars[from..to]`.
pub fn string_from_range(chars: &Vec<char>, from: usize, to: usize) -> (r: String)
    requires
        from <= to <= chars@.len(),
    ensures
        r@ == chars@.subrange(from as int, to as int),
{
    let mut r = String::new();
    let mut i = from;
    while i < to
        invariant
            from <= i <= to <= chars@.len(),
            r@ == chars@.subrange(from as int, i as int),
        decreases to - i,
    {
        proof {
            assert(chars@.subrange(from as int, i + 1) =~= chars@.subrange(from as int, i as int).push(chars@[i as int]));
        }
        push_char(&mut r, chars[i]);
        i += 1;
    }
    r
}

proof fn lemma_trim_start_skip(s: Seq<char>, i: int)
    requires
        0 <= i <= s.len(),
        forall|j: int| 0 <= j < i ==> is_ws(#[trigger] s[j]),
    ensures
        trim_start(s) == trim_start(s.skip(i)),
    decreases i,
{
    if i > 0 {
        assert(is_ws(s[0]));
        assert(s.drop_first().skip(i - 1) =~= s.skip(i));
        assert forall|j: int| 0 <= j < i - 1 implies is_ws(#[trigger] s.drop_first()[j]) by {
            assert(s.drop_first()[j] == s[j + 1]);
        }
        lemma_trim_start_skip(s.drop_first(), i - 1);
    } else {
        assert(s.skip(0) =~= s);
    }
}

proof fn lemma_trim_end_take(s: Seq<char>, k: int)
    requires
        0 <= k <= s.len(),
        forall|j: int| k <= j < s.len() ==> is_ws(#[trigger] s[j]),
    ensures
        trim_end(s) == trim_end(s.take(k)),
    decreases s.len() - k,
{
    if k < s.len() {
        assert(s.drop_last().take(k) =~= s.take(k));
        lemma_trim_end_take(s.drop_last(), k);
    } else {
        assert(s.take(k) =~= s);
    }
}

/// `s` has no white space at either end (or is empty).
pub open spec fn trimmed_ends(s: Seq<char>) -> bool {
    s.len() == 0 || (!is_ws(s[0]) && !is_ws(s.last()))
}

proof fn lemma_trim_start_first(s: Seq<char>)
    ensures
        trim_start(s).len() == 0 || !is_ws(trim_start(s)[0]),
    decreases s.len(),
{
    if s.len() > 0 && is_ws(s[0]) {
        lemma_trim_start_first(s.drop_first());
    }
}

proof fn lemma_trim_end_prefix(y: Seq<char>)
    ensures
        trim_end(y).len() <= y.len(),
        trim_end(y) == y.take(trim_end(y).len() as int),
        trim_end(y).len() == 0 || !is_ws(trim_end(y).last()),
    decreases y.len(),
{
    if y.len() > 0 && is_ws(y.last()) {
        lemma_trim_end_prefix(y.drop_last());
        assert(y.drop_last().take(trim_end(y).len() as int) =~= y.take(trim_end(y).len() as int));
    } else {
        assert(y.take(y.len() as int) =~= y);
    }
}

/// What `trim` gives has no white space at either end.
pub proof fn lemma_trim_ends(s: Seq<char>)
    ensures
        trimmed_ends(trim(s)),
{
    lemma_trim_start_first(s);
    lemma_trim_end_prefix(trim_start(s));
    let t = trim(s);
    if t.len() > 0 {
        assert(t[0] == trim_start(s)[0]);
    }
}

/// Trimming a string with no white space at its ends changes nothing.
pub proof fn lemma_trim_fixed(t: Seq<char>)
    requires
        trimmed_ends(t),
    ensures
        trim(t) == t,
{
}

proof fn lemma_ascii_lower_char(c: char)
    ensures
        is_ws(ascii_lower(c)) == is_ws(c),
        ascii_lower(ascii_lower(c)) == ascii_lower(c),
{
    if 'A' <= c && c <= 'Z' {
        let d = ascii_lower(c);
        assert(97 <= d as u32 <= 122);
    }
}

/// Lower-casing keeps the white space at the ends, and doing it twice is
/// doing it once.
pub proof fn lemma_lower_keeps_ends(x: Seq<char>)
    ensures
        trimmed_ends(x) ==> trimmed_ends(lower(x)),
        lower(lower(x)) == lower(x),
{
    if x.len() > 0 {
        lemma_ascii_lower_char(x[0]);
        lemma_ascii_lower_char(x.last());
        assert(lower(x).last() == ascii_lower(x.last()));
    }
    assert forall|i: int| 0 <= i < x.len() implies #[trigger] lower(lower(x))[i] == lower(x)[i] by {
        lemma_ascii_lower_char(x[i]);
    }
    assert(lower(lower(x)) =~= lower(x));
}

/// Trimming and lower-casing a second time changes nothing.
pub proof fn lemma_normalize_twice(s: Seq<char>)
    ensures
        lower(trim(lower(trim(s)))) == lower(trim(s)),
{
    lemma_trim_ends(s);
    lemma_lower_keeps_ends(trim(s));
    lemma_trim_fixed(lower(trim(s)));
    lemma_lower_keeps_ends(trim(s));
}

/// The bounds `(a, b)` such that `trim(s) == s[a..b]`.
pub fn trim_bounds(s: &Vec<char>) -> (r: (usize, usize))
    ensures
        r.0 <= r.1 <= s@.len(),
        trim(s@) == s@.subrange(r.0 as int, r.1 as int),
{
    let n = s.len();
    let mut a: usize = 0;
    while a < n && char_is_ws(s[a])
        invariant
            a <= n == s@.len(),
            forall|j: int| 0 <= j < a ==> is_ws(#[trigger] s@[j]),
        decreases n - a,
    {
        a += 1;
    }
    proof {
        lemma_trim_start_skip(s@, a as int);
        if a < n {
            assert(trim_start(s@.skip(a as int)) == s@.skip(a as int));
        } else {
            assert(s@.skip(a as int) =~= Seq::<char>::empty());
        }
    }
    let mut b: usize = n;
    while b > a && char_is_ws(s[b - 1])
        invariant
            a <= b <= n == s@.len(),
            forall|j: int| b <= j < n ==> is_ws(#[trigger] s@[j]),
        decreases b,
    {
        b -= 1;
    }
    proof {
        let t = s@.skip(a as int);
        assert(trim_start(s@) == t);
        assert forall|j: int| (b - a) <= j < t.len() implies is_ws(#[trigger] t[j]) by {
            assert(t[j] == s@[j + a]);
        }
        lemma_trim_end_take(t, (b - a) as int);
        assert(t.take((b - a) as int) =~= s@.subrange(a as int, b as int));
        if b > a {
            assert(trim_end(t.take((b - a) as int)) == t.take((b - a) as int));
        } else {
            assert(t.take((b - a) as int) =~= Seq::<char>::empty());
        }
    }
    (a, b)
}

/// The length of `s` without its trailing white space.
pub fn trim_end_len(s: &Vec<char>) -> (b: usize)
    ensures
        b <= s@.len(),
        trim_end(s@) == s@.take(b as int),
{
    let mut b: usize = s.len();
    while b > 0 && char_is_ws(s[b - 1])
        invariant
            b <= s@.len(),
            forall|j: int| b <= j < s@.len() ==> is_ws(#[trigger] s@[j]),
        decreases b,
    {
        b -= 1;
    }
    proof {
        lemma_trim_end_take(s@, b as int);
        if b > 0 {
            assert(trim_end(s@.take(b as int)) == s@.take(b as int));
        } else {
            assert(s@.take(0) =~= Seq::<char>::empty());
        }
    }
    b
}

/// `s` with leading and trailing white space removed (`str::trim`).
pub fn trim_str(s: &str) -> (r: String)
    ensures
        r@ == trim(s@),
{
    let chars = chars_of(s);
    let (a, b) = trim_bounds(&chars);
    string_from_range(&chars, a, b)
}

/// `s` with ASCII letters lower-cased (`str::to_ascii_lowercase`).
pub fn lower_str(s: &str) -> (r: String)
    ensures
        r@ == lower(s@),
{
    let chars = chars_of(s);
    let mut r = String::new();
    let mut i: usize = 0;
    while i < chars.len()
        invariant
            i <= chars@.len(),
            chars@ == s@,
            r@ == lower(s@.take(i as int)),
        decreases chars@.len() - i,
    {
        let c = chars[i];
        let d = if 'A' <= c && c <= 'Z' {
            let b: u8 = (c as u32) as u8;
            ((b + 32) as u8) as char
        } else {
            c
        };
        proof {
            assert(lower(s@.take(i + 1)) =~= lower(s@.take(i as int)).push(ascii_lower(c)));
        }
        push_char(&mut r, d);
        i += 1;
    }
    proof {
        assert(s@.take(i as int) =~= s@);
    }
    r
}

/// Whether `pat` occurs in `s` at position `i`.
pub fn occurs_at_exec(s: &Vec<char>, pat: &Vec<char>, i: usize) -> (b: bool)
    ensures
        b == occurs_at(s@, pat@, i as int),
{
    if i > s.len() || pat.len() > s.len() - i {
        return false;
    }
    let n = s.len();
    let mut k: usize = 0;
    while k < pat.len()
        invariant
            n == s@.len(),
            i + pat@.len() <= s@.len(),
            k <= pat@.len(),
            forall|j: int| 0 <= j < k ==> s@[i + j] == pat@[j],
        decreases pat@.len() - k,
    {
        if s[i + k] != pat[k] {
            proof {
                assert(s@.subrange(i as int, i + pat@.len())[k as int] != pat@[k as int]);
            }
            return false;
        }
        k += 1;
    }
    proof {
        assert(s@.subrange(i as int, i + pat@.len()) =~= pat@);
    }
    true
}

/// The first position at or after `from` where `pat` occurs in `s`.
pub fn find_from(s: &Vec<char>, pat: &Vec<char>, from: usize) -> (r: Option<usize>)
    ensures
        is_first_occurrence(s@, pat@, from as int, match r { Some(i) => Some(i as int), None => None }),
{
    let mut i = from;
    if i > s.len() {
        proof {
            assert forall|j: int| from <= j implies !occurs_at(s@, pat@, j) by {}
        }
        return None;
    }
    loop
        invariant
            from <= i <= s@.len(),
            forall|j: int| from <= j < i ==> !occurs_at(s@, pat@, j),
        ensures
            i == s@.len(),
            forall|j: int| from <= j <= i ==> !occurs_at(s@, pat@, j),
        decreases s@.len() - i,
    {
        if occurs_at_exec(s, pat, i) {
            return Some(i);
        }
        if i >= s.len() {
            break;
        }
        i += 1;
    }
    proof {
        assert forall|j: int| from <= j implies !occurs_at(s@, pat@, j) by {
            if j > i {
                assert(j > s@.len());
            }
        }
    }
    None
}

/// Whether `pat` occurs in `s` (`str::contains`).
pub fn contains_str(s: &str, pat: &str) -> (b: bool)
    ensures
        b == contains(s@, pat@),
{
    let sv = chars_of(s);
    let pv = chars_of(pat);
    let r = find_from(&sv, &pv, 0);
    match r {
        Some(i) => true,
        None => {
            proof {
                assert forall|j: int| !occurs_at(s@, pat@, j) by {
                    if j >= 0 {
                        assert(!occurs_at(sv@, pv@, j));
                    }
                }
            }
            false
        },
    }
}

/// Whether `s` begins with `pre` (`str::starts_with`).
pub fn starts_with_str(s: &str, pre: &str) -> (b: bool)
    ensures
        b == starts_with(s@, pre@),
{
    let sv = chars_of(s);
    let pv = chars_of(pre);
    let b = occurs_at_exec(&sv, &pv, 0);
    proof {
        assert(b == starts_with(s@, pre@));
    }
    b
}

proof fn lemma_decimal_len(n: nat)
    ensures
        decimal(n).len() >= 1,
    decreases n,
{
    if n >= 10 {
        lemma_decimal_len(n / 10);
    }
}

/// The decimal rendering of `n` (what `{}` prints for an unsigned integer).
pub fn decimal_string(n: u64) -> (r: String)
    ensures
        r@ == decimal(n as nat),
{
    // Collect digits least-significant first, then emit them in reverse.
    let mut digits: Vec<char> = Vec::new();
    let mut m = n;
    let ghost mut rest: Seq<char> = Seq::empty();
    loop
        invariant_except_break
            decimal(n as nat) == decimal(m as nat) + digits@.reverse(),
        ensures
            decimal(n as nat) == digits@.reverse(),
        decreases m,
    {
        let d = m % 10;
        let c = digit_of(d);
        if m < 10 {
            proof {
                assert(decimal(m as nat) =~= seq![c]);
            }
            digits.push(c);
            proof {
                assert(digits@.reverse() =~= seq![c] + digits@.drop_last().reverse());
                assert(decimal(n as nat) =~= digits@.reverse());
            }
            break;
        }
        proof {
            assert(decimal(m as nat) == decimal((m / 10) as nat).push(c));
        }
        let ghost old_digits = digits@;
        digits.push(c);
        m = m / 10;
        proof {
            assert(digits@.reverse() =~= seq![c] + old_digits.reverse());
            assert(decimal(n as nat) =~= decimal(m as nat) + digits@.reverse());
        }
    }
    let mut r = String::new();
    let mut k = digits.len();
    while k > 0
        invariant
            k <= digits@.len(),
            decimal(n as nat) == digits@.reverse(),
            r@ == digits@.subrange(k as int, digits@.len() as int).reverse(),
        decreases k,
    {
        k -= 1;
        proof {
            assert(digits@.subrange(k as int, digits@.len() as int).reverse() =~= digits@.subrange(
                k + 1,
                digits@.len() as int,
            ).reverse().push(digits@[k as int]));
        }
        push_char(&mut r, digits[k]);
    }
    proof {
        assert(digits@.subrange(0, digits@.len() as int) =~= digits@);
    }
    r
}

fn digit_of(d: u64) -> (c: char)
    requires
        d < 10,
    ensures
        c == digit_char(d as nat),
{
    match d {
        0 => '0',
        1 => '1',
        2 => '2',
        3 => '3',
        4 => '4',
        5 => '5',
        6 => '6',
        7 => '7',
        8 => '8',
        _ => '9',
    }
}

/// Whether `c` is an ASCII decimal digit.
pub open spec fn is_digit(c: char) -> bool {
    '0' <= c && c <= '9'
}

/// The value of a string of decimal digits.
pub open spec fn digits_value(s: Seq<char>) -> nat
    decreases s.len(),
{
    if s.len() == 0 {
        0
    } else {
        digits_value(s.drop_last()) * 10 + ((s.last() as u32) - ('0' as u32)) as nat
    }
}

/// The digits of an unsigned number: the text after an optional leading `+`.
pub open spec fn unsigned_body(s: Seq<char>) -> Seq<char> {
    if s.len() > 0 && s[0] == '+' { s.drop_first() } else { s }
}

/// What `str::parse::<u64>` gives: an optional `+` followed by one or more
/// ASCII digits whose value fits in a `u64`; anything else is no number.
pub open spec fn parse_u64(s: Seq<char>) -> Option<u64> {
    let body = unsigned_body(s);
    if body.len() == 0 || exists|i: int| 0 <= i < body.len() && !is_digit(#[trigger] body[i]) {
        None
    } else if digits_value(body) > u64::MAX {
        None
    } else {
        Some(digits_value(body) as u64)
    }
}

proof fn lemma_digits_value_grows(s: Seq<char>, k: int)
    requires
        0 <= k <= s.len(),
        forall|i: int| 0 <= i < s.len() ==> is_digit(#[trigger] s[i]),
    ensures
        digits_value(s.take(k)) <= digits_value(s),
    decreases s.len() - k,
{
    if k < s.len() {
        assert(s.drop_last().take(k) =~= s.take(k));
        assert forall|i: int| 0 <= i < s.drop_last().len() implies is_digit(#[trigger] s.drop_last()[i]) by {
            assert(s.drop_last()[i] == s[i]);
        }
        lemma_digits_value_grows(s.drop_last(), k);
    } else {
        assert(s.take(k) =~= s);
    }
}

/// Parse a `u64` as `str::parse::<u64>` does.
pub fn parse_u64_str(s: &str) -> (r: Option<u64>)
    ensures
        r == parse_u64(s@),
{
    let chars = chars_of(s);
    let n = chars.len();
    let start: usize = if n > 0 && chars[0] == '+' { 1 } else { 0 };
    let ghost body = unsigned_body(s@);
    proof {
        assert(body =~= s@.subrange(start as int, n as int));
    }
    if start >= n {
        return None;
    }
    let mut value: u64 = 0;
    let mut i = start;
    while i < n
        invariant
            chars@ == s@,
            n == chars@.len(),
            start < n,
            start <= i <= n,
            body == chars@.subrange(start as int, n as int),
            body == unsigned_body(s@),
            forall|j: int| start <= j < i ==> is_digit(#[trigger] chars@[j]),
            value == digits_value(chars@.subrange(start as int, i as int)),
        decreases n - i,
    {
        let c = chars[i];
        if !('0' <= c && c <= '9') {
            proof {
                let k = i - start;
                assert(body[k] == chars@[i as int]);
                assert(0 <= k < body.len() && !is_digit(body[k]));
                assert(parse_u64(s@) is None);
            }
            return None;
        }
        let d = (c as u32 - '0' as u32) as u64;
        proof {
            assert(chars@.subrange(start as int, i + 1).drop_last() =~= chars@.subrange(start as int, i as int));
        }
        if value > (u64::MAX - d) / 10 {
            // Too large already; the whole string is either not a number or too large.
            proof {
                let t = chars@.subrange(start as int, i + 1);
                assert(digits_value(t) > u64::MAX);
                if forall|j: int| 0 <= j < body.len() ==> is_digit(#[trigger] body[j]) {
                    assert(body.take(i + 1 - start) =~= t);
                    lemma_digits_value_grows(body, i + 1 - start);
                    assert(digits_value(body) > u64::MAX);
                }
                assert(parse_u64(s@) is None);
            }
            return None;
        }
        value = value * 10 + d;
        i += 1;
    }
    proof {
        assert(chars@.subrange(start as int, i as int) =~= body);
        assert forall|j: int| 0 <= j < body.len() implies is_digit(#[trigger] body[j]) by {
            assert(body[j] == chars@[j + start]);
        }
    }
    Some(value)
}

/// `s` without the prefix `pre`, when it has that prefix (`str::strip_prefix`).
pub fn strip_prefix_str(s: &str, pre: &str) -> (r: Option<String>)
    ensures
        starts_with(s@, pre@) ==> (r matches Some(t) && t@ == s@.subrange(pre@.len() as int, s@.len() as int)),
        !starts_with(s@, pre@) ==> r is None,
{
    let sv = chars_of(s);
    let pv = chars_of(pre);
    if occurs_at_exec(&sv, &pv, 0) {
        Some(string_from_range(&sv, pv.len(), sv.len()))
    } else {
        None
    }
}

} // verus!
