//! Text helpers: every operation is stated over the character sequence of a
//! string.

use vstd::prelude::*;
use vstd::string::{StrSliceExecFns, StringExecFns, StringSliceAdditionalSpecFns};

verus! {

/// The character sequences of a list of strings.
pub open spec fn texts(items: Seq<String>) -> Seq<Seq<char>> {
    Seq::new(items.len(), |i: int| items[i]@)
}

/// The character sequence of an optional string.
pub open spec fn opt_text(item: Option<String>) -> Option<Seq<char>> {
    match item {
        Some(s) => Some(s@),
        None => None,
    }
}

/// The bytes of an optional buffer.
pub open spec fn opt_bytes(item: Option<Vec<u8>>) -> Option<Seq<u8>> {
    match item {
        Some(b) => Some(b@),
        None => None,
    }
}

/// Equality of two strings, character by character.
pub fn same_text(a: &str, b: &str) -> (res: bool)
    ensures
        res == (a@ == b@),
{
    let x = a.as_bytes();
    let y = b.as_bytes();
    proof {
        vstd::utf8::encode_utf8_decode_utf8(a@);
        vstd::utf8::encode_utf8_decode_utf8(b@);
    }
    if x.len() != y.len() {
        return false;
    }
    let mut i: usize = 0;
    while i < x.len()
        invariant
            0 <= i <= x.len(),
            x.len() == y.len(),
            x@ == a.spec_bytes(),
            y@ == b.spec_bytes(),
            forall|k: int| 0 <= k < i ==> x@[k] == y@[k],
        decreases x.len() - i,
    {
        if x[i] != y[i] {
            assert(a.spec_bytes() != b.spec_bytes());
            return false;
        }
        i = i + 1;
    }
    assert(x@ =~= y@);
    true
}

/// The characters of a string as a vector.
pub fn chars_of(s: &str) -> (res: Vec<char>)
    ensures
        res@ == s@,
{
    let mut out: Vec<char> = Vec::new();
    for c in it: s.chars()
        invariant
            it.seq() == s@,
            out.len() == it.index(),
            forall|k: int| 0 <= k < out.len() ==> out@[k] == it.seq()[k],
    {
        out.push(c);
    }
    assert(out@ =~= s@);
    out
}

/// Whether `items` holds the text `wanted`.
pub fn contains_text(items: &Vec<String>, wanted: &str) -> (res: bool)
    ensures
        res == texts(items@).contains(wanted@),
{
    let mut i: usize = 0;
    while i < items.len()
        invariant
            0 <= i <= items.len(),
            forall|k: int| 0 <= k < i ==> items@[k]@ != wanted@,
        decreases items.len() - i,
    {
        if same_text(items[i].as_str(), wanted) {
            assert(texts(items@)[i as int] == wanted@);
            return true;
        }
        i = i + 1;
    }
    assert forall|k: int| 0 <= k < texts(items@).len() implies texts(items@)[k] != wanted@ by {}
    false
}

/// A copy of a list of strings.
pub fn clone_texts(items: &Vec<String>) -> (res: Vec<String>)
    ensures
        texts(res@) == texts(items@),
        res@ == items@,
{
    let mut out: Vec<String> = Vec::new();
    let mut i: usize = 0;
    while i < items.len()
        invariant
            0 <= i <= items.len(),
            out@ == items@.take(i as int),
        decreases items.len() - i,
    {
        out.push(items[i].clone());
        i = i + 1;
        assert(out@ =~= items@.take(i as int));
    }
    assert(out@ =~= items@);
    out
}

/// A copy of a byte slice.
pub fn clone_bytes(data: &[u8]) -> (res: Vec<u8>)
    ensures
        res@ == data@,
{
    vstd::slice::slice_to_vec(data)
}

/// The concatenation of two pieces of text.
pub fn join2(a: &str, b: &str) -> (res: String)
    ensures
        res@ == a@ + b@,
{
    let mut out = a.to_owned();
    out.append(b);
    out
}

/// The concatenation of three pieces of text.
pub fn join3(a: &str, b: &str, c: &str) -> (res: String)
    ensures
        res@ == a@ + b@ + c@,
{
    let mut out = a.to_owned();
    out.append(b);
    out.append(c);
    out
}

/// The decimal digit for a value below ten.
pub open spec fn digit_char(d: nat) -> char {
    ('0' as u32 + d as u32) as char
}

/// A number in decimal, without leading zeros.
pub open spec fn decimal(n: nat) -> Seq<char>
    decreases n,
{
    if n < 10 {
        seq![digit_char(n)]
    } else {
        decimal(n / 10).push(digit_char(n % 10))
    }
}

fn digit_text(d: u64) -> (res: &'static str)
    requires
        d < 10,
    ensures
        res@ == seq![digit_char(d as nat)],
{
    proof {
        reveal_strlit("0");
        reveal_strlit("1");
        reveal_strlit("2");
        reveal_strlit("3");
        reveal_strlit("4");
        reveal_strlit("5");
        reveal_strlit("6");
        reveal_strlit("7");
        reveal_strlit("8");
        reveal_strlit("9");
    }
    let res: &'static str = match d {
        0 => "0",
        1 => "1",
        2 => "2",
        3 => "3",
        4 => "4",
        5 => "5",
        6 => "6",
        7 => "7",
        8 => "8",
        _ => "9",
    };
    assert(res@ =~= seq![digit_char(d as nat)]);
    res
}

/// Renders a number in decimal.
pub fn decimal_text(n: u64) -> (res: String)
    ensures
        res@ == decimal(n as nat),
    decreases n,
{
    if n < 10 {
        digit_text(n).to_owned()
    } else {
        let mut out = decimal_text(n / 10);
        out.append(digit_text(n % 10));
        assert(out@ =~= decimal((n / 10) as nat).push(digit_char((n % 10) as nat)));
        out
    }
}

/// A signed number in decimal, with a minus sign before a negative one.
pub open spec fn signed_decimal(n: int) -> Seq<char> {
    if n < 0 {
        "-"@ + decimal((-n) as nat)
    } else {
        decimal(n as nat)
    }
}

/// Renders a signed number in decimal.
pub fn signed_decimal_text(n: i32) -> (res: String)
    ensures
        res@ == signed_decimal(n as int),
{
    if n < 0 {
        let magnitude: u64 = (-(n as i64)) as u64;
        join2("-", decimal_text(magnitude).as_str())
    } else {
        decimal_text(n as u64)
    }
}

/// A copy of an optional string.
pub fn clone_opt_text(item: &Option<String>) -> (res: Option<String>)
    ensures
        res == *item,
        opt_text(res) == opt_text(*item),
{
    match item {
        Some(s) => Some(s.clone()),
        None => None,
    }
}

/// The white space characters of Unicode.
pub open spec fn is_space(c: char) -> bool {
    let n = c as u32;
    ||| 0x9 <= n <= 0xd
    ||| n == 0x20
    ||| n == 0x85
    ||| n == 0xa0
    ||| n == 0x1680
    ||| 0x2000 <= n <= 0x200a
    ||| n == 0x2028
    ||| n == 0x2029
    ||| n == 0x202f
    ||| n == 0x205f
    ||| n == 0x3000
}

fn char_is_space(c: char) -> (res: bool)
    ensures
        res == is_space(c),
{
    let n: u32 = c as u32;
    (0x9 <= n && n <= 0xd) || n == 0x20 || n == 0x85 || n == 0xa0 || n == 0x1680 || (0x2000 <= n
        && n <= 0x200a) || n == 0x2028 || n == 0x2029 || n == 0x202f || n == 0x205f || n == 0x3000
}

/// A text without the white space at its start.
pub open spec fn trimmed_start(s: Seq<char>) -> Seq<char>
    decreases s.len(),
{
    if s.len() > 0 && is_space(s[0]) {
        trimmed_start(s.drop_first())
    } else {
        s
    }
}

/// A text without the white space at its end.
pub open spec fn trimmed_end(s: Seq<char>) -> Seq<char>
    decreases s.len(),
{
    if s.len() > 0 && is_space(s.last()) {
        trimmed_end(s.drop_last())
    } else {
        s
    }
}

/// A text without the white space at either end.
pub open spec fn trimmed(s: Seq<char>) -> Seq<char> {
    trimmed_end(trimmed_start(s))
}

/// Removes the white space at either end.
pub fn trim(s: &str) -> (res: String)
    ensures
        res@ == trimmed(s@),
{
    let chars = chars_of(s);
    let mut from: usize = 0;
    assert(s@.skip(0) =~= s@);
    while from < chars.len() && char_is_space(chars[from])
        invariant
            chars@ == s@,
            from <= chars.len(),
            trimmed_start(s@) == trimmed_start(s@.skip(from as int)),
        decreases chars.len() - from,
    {
        assert(s@.skip(from as int).drop_first() =~= s@.skip(from + 1));
        from = from + 1;
    }
    let ghost rest = s@.skip(from as int);
    assert(trimmed_start(s@) == rest);
    let mut to: usize = chars.len();
    assert(s@.subrange(from as int, to as int) =~= rest);
    while from < to && char_is_space(chars[to - 1])
        invariant
            chars@ == s@,
            from <= to <= chars.len(),
            trimmed_end(rest) == trimmed_end(s@.subrange(from as int, to as int)),
        decreases to,
    {
        let ghost cur = s@.subrange(from as int, to as int);
        assert(cur.last() == s@[to - 1]);
        assert(cur.drop_last() =~= s@.subrange(from as int, to - 1));
        to = to - 1;
    }
    let ghost cur = s@.subrange(from as int, to as int);
    assert(cur.len() > 0 ==> cur.last() == s@[to - 1]);
    s.substring_char(from, to).to_owned()
}

/// A text without any slashes at its end.
pub open spec fn without_trailing_slashes(s: Seq<char>) -> Seq<char>
    decreases s.len(),
{
    if s.len() > 0 && s.last() == '/' {
        without_trailing_slashes(s.drop_last())
    } else {
        s
    }
}

/// Removes all slashes at the end.
pub fn trim_trailing_slashes(s: &str) -> (res: String)
    ensures
        res@ == without_trailing_slashes(s@),
{
    let chars = chars_of(s);
    let mut to: usize = chars.len();
    assert(s@.take(to as int) =~= s@);
    while 0 < to && chars[to - 1] == '/'
        invariant
            chars@ == s@,
            to <= chars.len(),
            without_trailing_slashes(s@) == without_trailing_slashes(s@.take(to as int)),
        decreases to,
    {
        assert(s@.take(to as int).last() == s@[to - 1]);
        assert(s@.take(to as int).drop_last() =~= s@.take(to - 1));
        to = to - 1;
    }
    assert(to > 0 ==> s@.take(to as int).last() == s@[to - 1]);
    assert(s@.subrange(0, to as int) =~= s@.take(to as int));
    s.substring_char(0, to).to_owned()
}

/// The first `n` characters of a text that has that many.
pub fn prefix(s: &str, n: usize) -> (res: String)
    requires
        n <= s@.len(),
    ensures
        res@ == s@.take(n as int),
{
    assert(s@.subrange(0, n as int) =~= s@.take(n as int));
    s.substring_char(0, n).to_owned()
}

/// Whether a pattern stands in a text at a place.
pub open spec fn stands_at(s: Seq<char>, pattern: Seq<char>, at: int) -> bool {
    0 <= at && at + pattern.len() <= s.len() && s.subrange(at, at + pattern.len()) == pattern
}

/// Whether the last place of a pattern in a text is the given one.
pub open spec fn last_at(s: Seq<char>, pattern: Seq<char>, at: int) -> bool {
    stands_at(s, pattern, at) && forall|i: int| at < i ==> !stands_at(s, pattern, i)
}

/// The last place of a pattern in a text, given by their characters.
pub fn find_chars(s: &Vec<char>, pattern: &Vec<char>) -> (res: Option<usize>)
    ensures
        res is Some ==> last_at(s@, pattern@, res->0 as int),
        res is None ==> forall|i: int| !stands_at(s@, pattern@, i),
{
    if pattern.len() > s.len() {
        return None;
    }
    let mut at: usize = s.len() - pattern.len();
    loop
        invariant
            at + pattern.len() <= s.len(),
            forall|i: int| at < i ==> !stands_at(s@, pattern@, i),
        decreases at,
    {
        let mut k: usize = 0;
        while k < pattern.len() && s[at + k] == pattern[k]
            invariant
                at + pattern.len() <= s.len(),
                k <= pattern.len(),
                forall|j: int| 0 <= j < k ==> s@[at + j] == pattern@[j],
            decreases pattern.len() - k,
        {
            k = k + 1;
        }
        if k == pattern.len() {
            assert(s@.subrange(at as int, at + pattern.len()) =~= pattern@);
            return Some(at);
        }
        assert(s@.subrange(at as int, at + pattern.len())[k as int] != pattern@[k as int]);
        assert(!stands_at(s@, pattern@, at as int));
        if at == 0 {
            return None;
        }
        at = at - 1;
    }
}

/// The letters and digits of ASCII.
pub open spec fn is_ascii_alphanumeric(c: char) -> bool {
    '0' <= c <= '9' || 'a' <= c <= 'z' || 'A' <= c <= 'Z'
}

/// The longest start of a text that is made of ASCII letters and digits.
pub open spec fn alphanumeric_start(s: Seq<char>) -> Seq<char>
    decreases s.len(),
{
    if s.len() > 0 && is_ascii_alphanumeric(s[0]) {
        seq![s[0]] + alphanumeric_start(s.drop_first())
    } else {
        seq![]
    }
}

proof fn alphanumeric_start_is_prefix(s: Seq<char>, n: int)
    requires
        0 <= n <= s.len(),
        forall|i: int| 0 <= i < n ==> is_ascii_alphanumeric(#[trigger] s[i]),
        n < s.len() ==> !is_ascii_alphanumeric(s[n]),
    ensures
        alphanumeric_start(s) == s.take(n),
    decreases s.len(),
{
    if n == 0 {
        assert(s.take(0) =~= seq![]);
    } else {
        assert(is_ascii_alphanumeric(s[0]));
        let rest = s.drop_first();
        assert forall|i: int| 0 <= i < n - 1 implies is_ascii_alphanumeric(#[trigger] rest[i]) by {
            assert(rest[i] == s[i + 1]);
        }
        alphanumeric_start_is_prefix(rest, n - 1);
        assert(seq![s[0]] + rest.take(n - 1) =~= s.take(n));
    }
}

/// The ASCII letters and digits that follow the last place of a pattern in a
/// text; empty where the pattern does not occur.
pub fn alphanumeric_after(s: &str, pattern: &str) -> (res: String)
    ensures
        forall|at: int|
            last_at(s@, pattern@, at) ==> res@ == #[trigger] alphanumeric_start(
                s@.skip(at + pattern@.len()),
            ),
        (forall|at: int| !stands_at(s@, pattern@, at)) ==> res@ == ""@,
{
    let chars = chars_of(s);
    let wanted = chars_of(pattern);
    let at: usize = match find_chars(&chars, &wanted) {
        Some(i) => i,
        None => return "".to_owned(),
    };
    assert(at + wanted.len() <= chars.len());
    let from: usize = at + wanted.len();
    let mut to: usize = from;
    while to < chars.len() && (('0' <= chars[to] && chars[to] <= '9') || ('a' <= chars[to]
        && chars[to] <= 'z') || ('A' <= chars[to] && chars[to] <= 'Z'))
        invariant
            chars@ == s@,
            from <= to <= chars.len(),
            forall|i: int| from <= i < to ==> is_ascii_alphanumeric(#[trigger] s@[i]),
        decreases chars.len() - to,
    {
        to = to + 1;
    }
    proof {
        let tail = s@.skip(from as int);
        let n = (to - from) as int;
        assert forall|i: int| 0 <= i < n implies is_ascii_alphanumeric(#[trigger] tail[i]) by {
            assert(tail[i] == s@[from + i]);
        }
        alphanumeric_start_is_prefix(tail, n);
        assert(tail.take(n) =~= s@.subrange(from as int, to as int));
        assert forall|other: int| last_at(s@, pattern@, other) implies other == at by {}
    }
    s.substring_char(from, to).to_owned()
}

/// The number that decimal digits stand for.
pub open spec fn digits_value(s: Seq<char>) -> int
    decreases s.len(),
{
    if s.len() == 0 {
        0
    } else {
        10 * digits_value(s.drop_last()) + (s.last() as int - '0' as int)
    }
}

/// A number in decimal is made of digits that stand for that number, without a zero
/// before them.
pub proof fn decimal_stands_for_the_number(n: nat)
    ensures
        digits_value(decimal(n)) == n,
        decimal(n).len() >= 1,
        forall|i: int| 0 <= i < decimal(n).len() ==> '0' <= #[trigger] decimal(n)[i] <= '9',
        n > 0 ==> decimal(n)[0] != '0',
    decreases n,
{
    if n < 10 {
        assert(decimal(n).drop_last() =~= Seq::<char>::empty());
        assert(decimal(n).last() == digit_char(n));
        assert(digits_value(Seq::<char>::empty()) == 0);
    } else {
        decimal_stands_for_the_number(n / 10);
        assert(decimal(n).drop_last() =~= decimal(n / 10));
        assert(decimal(n)[0] == decimal(n / 10)[0]);
    }
}

/// Trimming takes away white space at both ends and nothing else: what is left neither
/// starts nor ends with white space, and stands in the text between two stretches of
/// white space.
pub proof fn trimming_takes_only_white_space(s: Seq<char>)
    ensures
        trimmed(s).len() > 0 ==> !is_space(trimmed(s)[0]) && !is_space(trimmed(s).last()),
        exists|i: int|
            {
                &&& 0 <= i
                &&& i + trimmed(s).len() <= s.len()
                &&& #[trigger] s.subrange(i, i + trimmed(s).len()) == trimmed(s)
                &&& forall|k: int| 0 <= k < i ==> is_space(#[trigger] s[k])
                &&& forall|k: int|
                    i + trimmed(s).len() <= k < s.len() ==> is_space(#[trigger] s[k])
            },
{
    start_is_trimmed(s);
    let rest = trimmed_start(s);
    end_is_trimmed(rest);
    let i = s.len() - rest.len();
    let out = trimmed(s);
    assert(rest =~= s.skip(i));
    assert(out =~= s.subrange(i, i + out.len()));
    assert forall|k: int| i + out.len() <= k < s.len() implies is_space(#[trigger] s[k]) by {
        assert(rest[k - i] == s[k]);
    }
    if out.len() > 0 {
        assert(out[0] == rest[0]);
    }
}

proof fn start_is_trimmed(s: Seq<char>)
    ensures
        trimmed_start(s).len() <= s.len(),
        trimmed_start(s) == s.skip(s.len() - trimmed_start(s).len()),
        trimmed_start(s).len() > 0 ==> !is_space(trimmed_start(s)[0]),
        forall|k: int| 0 <= k < s.len() - trimmed_start(s).len() ==> is_space(#[trigger] s[k]),
    decreases s.len(),
{
    if s.len() > 0 && is_space(s[0]) {
        let rest = s.drop_first();
        start_is_trimmed(rest);
        let n = trimmed_start(s).len();
        assert(rest.skip(rest.len() - n) =~= s.skip(s.len() - n));
        assert forall|k: int| 0 <= k < s.len() - n implies is_space(#[trigger] s[k]) by {
            if k > 0 {
                assert(rest[k - 1] == s[k]);
            }
        }
    } else {
        assert(s.skip(0) =~= s);
    }
}

proof fn end_is_trimmed(s: Seq<char>)
    ensures
        trimmed_end(s).len() <= s.len(),
        trimmed_end(s) == s.take(trimmed_end(s).len() as int),
        trimmed_end(s).len() > 0 ==> !is_space(trimmed_end(s).last()),
        forall|k: int| trimmed_end(s).len() <= k < s.len() ==> is_space(#[trigger] s[k]),
    decreases s.len(),
{
    if s.len() > 0 && is_space(s.last()) {
        let rest = s.drop_last();
        end_is_trimmed(rest);
        let n = trimmed_end(s).len();
        assert(rest.take(n as int) =~= s.take(n as int));
        assert forall|k: int| n <= k < s.len() implies is_space(#[trigger] s[k]) by {
            if k < rest.len() {
                assert(rest[k] == s[k]);
            }
        }
    } else {
        assert(s.take(s.len() as int) =~= s);
    }
}

/// Of an address only the slashes at its end are taken away, and all of them.
pub proof fn only_trailing_slashes_go(s: Seq<char>)
    ensures
        without_trailing_slashes(s).len() <= s.len(),
        without_trailing_slashes(s) == s.take(without_trailing_slashes(s).len() as int),
        without_trailing_slashes(s).len() > 0 ==> without_trailing_slashes(s).last() != '/',
        forall|k: int| without_trailing_slashes(s).len() <= k < s.len() ==> #[trigger] s[k] == '/',
    decreases s.len(),
{
    if s.len() > 0 && s.last() == '/' {
        let rest = s.drop_last();
        only_trailing_slashes_go(rest);
        let n = without_trailing_slashes(s).len();
        assert(rest.take(n as int) =~= s.take(n as int));
        assert forall|k: int| n <= k < s.len() implies #[trigger] s[k] == '/' by {
            if k < rest.len() {
                assert(rest[k] == s[k]);
            }
        }
    } else {
        assert(s.take(s.len() as int) =~= s);
    }
}

/// A pattern stands at a place exactly where the text is what stands before that place, the
/// pattern, and what is left.
pub proof fn a_pattern_stands_between_the_rest(
    before: Seq<char>,
    pattern: Seq<char>,
    after: Seq<char>,
    s: Seq<char>,
    at: int,
)
    ensures
        stands_at(before + pattern + after, pattern, before.len() as int),
        stands_at(s, pattern, at) ==> 0 <= at <= s.len() && s == s.take(at) + pattern + s.skip(
            at + pattern.len(),
        ),
{
    let all = before + pattern + after;
    assert(all.subrange(before.len() as int, (before.len() + pattern.len()) as int) =~= pattern);
    if stands_at(s, pattern, at) {
        assert forall|k: int| 0 <= k < pattern.len() implies pattern[k] == #[trigger] s[at + k] by {
            assert(s.subrange(at, at + pattern.len())[k] == s[at + k]);
        }
        assert(s =~= s.take(at) + pattern + s.skip(at + pattern.len()));
    }
}

/// A negative number is its magnitude behind a minus sign; any other is its digits.
pub proof fn a_sign_is_shown(n: int)
    ensures
        n < 0 ==> signed_decimal(n).len() > 1 && signed_decimal(n)[0] == '-' && digits_value(
            signed_decimal(n).drop_first(),
        ) == -n,
        n >= 0 ==> digits_value(signed_decimal(n)) == n,
{
    reveal_strlit("-");
    if n < 0 {
        decimal_stands_for_the_number((-n) as nat);
        assert(signed_decimal(n).drop_first() =~= decimal((-n) as nat));
    } else {
        decimal_stands_for_the_number(n as nat);
    }
}

} // verus!
