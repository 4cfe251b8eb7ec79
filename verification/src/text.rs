use vstd::prelude::*;

verus! {

broadcast use vstd::string::group_string_axioms;

/// The characters of a string slice, in order.
pub fn chars_of(s: &str) -> (v: Vec<char>)
    ensures
        v@ == s@,
{
    let mut v: Vec<char> = Vec::new();
    for c in it: s.chars()
        invariant
            it.seq() == s@,
            v@ == it.seq().take(it.index() as int),
    {
        v.push(c);
    }
    v
}

/// Calls `Iterator::collect` on the characters to build a `String`. The contract claims what the
/// documentation of `FromIterator<char> for String` says: the string holds these characters in
/// their order.
#[verifier::external_body]
pub(crate) fn string_of(v: &[char]) -> (s: String)
    ensures
        s@ == v@,
{
    v.iter().collect()
}

} // verus!

verus! {

/// An optional index as a mathematical integer.
pub open spec fn opt_int(o: Option<usize>) -> Option<int> {
    match o {
        Some(i) => Some(i as int),
        None => None,
    }
}

/// True when `pat` occurs in `s` at index `i`.
pub open spec fn occurs_at(s: Seq<char>, pat: Seq<char>, i: int) -> bool {
    0 <= i && i + pat.len() <= s.len() && s.subrange(i, i + pat.len()) == pat
}

/// The first index at or after `from` where the non-empty `pat` occurs in `s`.
pub open spec fn find_from(s: Seq<char>, pat: Seq<char>, from: int) -> Option<int>
    decreases s.len() - from,
{
    if from < 0 || from >= s.len() || from + pat.len() > s.len() {
        None
    } else if occurs_at(s, pat, from) {
        Some(from)
    } else {
        find_from(s, pat, from + 1)
    }
}

/// The first index at or after `from` whose character is in `set`, or the length of `s`.
pub open spec fn first_of(s: Seq<char>, set: Seq<char>, from: int) -> int
    decreases s.len() - from,
{
    if from < 0 || from >= s.len() {
        s.len() as int
    } else if set.contains(s[from]) {
        from
    } else {
        first_of(s, set, from + 1)
    }
}

/// The first index in `from..to` whose character is not in `set`, or `to`.
pub open spec fn skip_of(s: Seq<char>, set: Seq<char>, from: int, to: int) -> int
    decreases to - from,
{
    if from < 0 || from >= to || to > s.len() {
        from
    } else if set.contains(s[from]) {
        skip_of(s, set, from + 1, to)
    } else {
        from
    }
}

/// The end of `s[from..to]` after the characters of `set` at its end are removed.
pub open spec fn trim_end_of(s: Seq<char>, set: Seq<char>, from: int, to: int) -> int
    decreases to - from,
{
    if from < 0 || to <= from || to > s.len() {
        to
    } else if set.contains(s[to - 1]) {
        trim_end_of(s, set, from, to - 1)
    } else {
        to
    }
}

/// True when `p` is a prefix of `s`.
pub open spec fn has_prefix(s: Seq<char>, p: Seq<char>) -> bool {
    p.len() <= s.len() && s.take(p.len() as int) == p
}

/// True when `p` is a suffix of `s`.
pub open spec fn has_suffix(s: Seq<char>, p: Seq<char>) -> bool {
    p.len() <= s.len() && s.skip(s.len() - p.len()) == p
}

/// True when `c` is an ASCII digit.
pub open spec fn is_digit(c: char) -> bool {
    '0' <= c && c <= '9'
}

/// True when `c` is an ASCII lowercase letter.
pub open spec fn is_ascii_lower(c: char) -> bool {
    'a' <= c && c <= 'z'
}

pub fn occurs_at_exec(s: &[char], pat: &[char], i: usize) -> (r: bool)
    ensures
        r == occurs_at(s@, pat@, i as int),
{
    if i > s.len() || pat.len() > s.len() - i {
        return false;
    }
    let mut k: usize = 0;
    while k < pat.len()
        invariant
            i + pat.len() <= s.len(),
            k <= pat.len(),
            forall|j: int| 0 <= j < k ==> s@[i + j] == pat@[j],
        decreases pat.len() - k,
    {
        if s[i + k] != pat[k] {
            assert(s@.subrange(i as int, i + pat@.len())[k as int] != pat@[k as int]);
            return false;
        }
        k = k + 1;
    }
    assert(s@.subrange(i as int, i + pat@.len()) =~= pat@);
    true
}

pub fn find_from_exec(s: &[char], pat: &[char], from: usize) -> (r: Option<usize>)
    ensures
        opt_int(r) == find_from(s@, pat@, from as int),
{
    let mut i = from;
    while i < s.len() && pat.len() <= s.len() - i
        invariant
            from <= i,
            find_from(s@, pat@, from as int) == find_from(s@, pat@, i as int),
        decreases s.len() - i,
    {
        if occurs_at_exec(s, pat, i) {
            return Some(i);
        }
        i = i + 1;
    }
    None
}

pub fn first_of_exec(s: &[char], set: &[char], from: usize) -> (r: usize)
    ensures
        r as int == first_of(s@, set@, from as int),
{
    let mut i = from;
    if i > s.len() {
        return s.len();
    }
    while i < s.len()
        invariant
            from <= i <= s.len(),
            first_of(s@, set@, from as int) == first_of(s@, set@, i as int),
        decreases s.len() - i,
    {
        if contains_char(set, s[i]) {
            return i;
        }
        i = i + 1;
    }
    i
}

pub fn skip_of_exec(s: &[char], set: &[char], from: usize, to: usize) -> (r: usize)
    requires
        from <= to <= s.len(),
    ensures
        r as int == skip_of(s@, set@, from as int, to as int),
        from <= r <= to,
{
    let mut i = from;
    while i < to
        invariant
            from <= i <= to <= s.len(),
            skip_of(s@, set@, from as int, to as int) == skip_of(s@, set@, i as int, to as int),
        decreases to - i,
    {
        if !contains_char(set, s[i]) {
            return i;
        }
        i = i + 1;
    }
    i
}

pub fn trim_end_of_exec(s: &[char], set: &[char], from: usize, to: usize) -> (r: usize)
    requires
        from <= to <= s.len(),
    ensures
        r as int == trim_end_of(s@, set@, from as int, to as int),
        from <= r <= to,
{
    let mut e = to;
    while e > from
        invariant
            from <= e <= to <= s.len(),
            trim_end_of(s@, set@, from as int, to as int) == trim_end_of(s@, set@, from as int, e as int),
        decreases e - from,
    {
        if !contains_char(set, s[e - 1]) {
            return e;
        }
        e = e - 1;
    }
    e
}

pub fn contains_char(set: &[char], c: char) -> (r: bool)
    ensures
        r == set@.contains(c),
{
    let mut i: usize = 0;
    while i < set.len()
        invariant
            i <= set@.len(),
            forall|j: int| 0 <= j < i ==> set@[j] != c,
        decreases set.len() - i,
    {
        if set[i] == c {
            assert(set@[i as int] == c);
            return true;
        }
        i = i + 1;
    }
    false
}

/// The characters `s[from..to]`.
pub fn slice_vec(s: &[char], from: usize, to: usize) -> (r: Vec<char>)
    requires
        from <= to <= s.len(),
    ensures
        r@ == s@.subrange(from as int, to as int),
{
    let mut r: Vec<char> = Vec::new();
    let mut i = from;
    while i < to
        invariant
            from <= i <= to <= s.len(),
            r@ == s@.subrange(from as int, i as int),
        decreases to - i,
    {
        r.push(s[i]);
        i = i + 1;
        assert(r@ =~= s@.subrange(from as int, i as int));
    }
    r
}

/// Appends the characters of `t` to `v`.
pub fn push_all(v: &mut Vec<char>, t: &[char])
    ensures
        final(v)@ == old(v)@ + t@,
{
    let mut i: usize = 0;
    while i < t.len()
        invariant
            i <= t@.len(),
            v@ == old(v)@ + t@.take(i as int),
        decreases t.len() - i,
    {
        v.push(t[i]);
        i = i + 1;
        assert(v@ =~= old(v)@ + t@.take(i as int));
    }
    assert(t@.take(t@.len() as int) =~= t@);
}

} // verus!

verus! {

/// True when `c` has the Unicode `White_Space` property, which `char::is_whitespace` tests.
pub open spec fn is_white(c: char) -> bool {
    let n = c as u32;
    (0x9 <= n && n <= 0xd) || n == 0x20 || n == 0x85 || n == 0xa0 || n == 0x1680 || (0x2000 <= n
        && n <= 0x200a) || n == 0x2028 || n == 0x2029 || n == 0x202f || n == 0x205f || n == 0x3000
}

pub fn is_white_exec(c: char) -> (r: bool)
    ensures
        r == is_white(c),
{
    let n = c as u32;
    (0x9 <= n && n <= 0xd) || n == 0x20 || n == 0x85 || n == 0xa0 || n == 0x1680 || (0x2000 <= n
        && n <= 0x200a) || n == 0x2028 || n == 0x2029 || n == 0x202f || n == 0x205f || n == 0x3000
}

/// The lowercase form of a text, as `str::to_lowercase` computes it by the Unicode rules.
pub uninterp spec fn lowercase(s: Seq<char>) -> Seq<char>;

/// Calls `str::to_lowercase` on the text of `v`. The contract claims only that the result
/// depends on the characters alone: it names the result `lowercase(v@)`.
#[verifier::external_body]
pub(crate) fn lowercase_chars(v: &[char]) -> (r: Vec<char>)
    ensures
        r@ == lowercase(v@),
{
    let s: String = v.iter().collect();
    s.to_lowercase().chars().collect()
}

/// True when every character of `s` is white space, so that `str::trim` gives an empty text.
pub open spec fn all_white(s: Seq<char>) -> bool {
    forall|i: int| 0 <= i < s.len() ==> is_white(#[trigger] s[i])
}

pub fn all_white_exec(s: &[char]) -> (r: bool)
    ensures
        r == all_white(s@),
{
    let mut i: usize = 0;
    while i < s.len()
        invariant
            i <= s.len(),
            forall|j: int| 0 <= j < i ==> is_white(#[trigger] s@[j]),
        decreases s.len() - i,
    {
        if !is_white_exec(s[i]) {
            return false;
        }
        i = i + 1;
    }
    true
}

} // verus!

verus! {

pub proof fn lemma_first_of(s: Seq<char>, set: Seq<char>, from: int)
    requires
        0 <= from <= s.len(),
    ensures
        from <= first_of(s, set, from) <= s.len(),
        first_of(s, set, from) < s.len() ==> set.contains(s[first_of(s, set, from)]),
        forall|j: int| from <= j < first_of(s, set, from) ==> !set.contains(#[trigger] s[j]),
    decreases s.len() - from,
{
    if from < s.len() && !set.contains(s[from]) {
        lemma_first_of(s, set, from + 1);
    }
}

pub proof fn lemma_skip_of(s: Seq<char>, set: Seq<char>, from: int, to: int)
    requires
        0 <= from <= to <= s.len(),
    ensures
        from <= skip_of(s, set, from, to) <= to,
    decreases to - from,
{
    if from < to && set.contains(s[from]) {
        lemma_skip_of(s, set, from + 1, to);
    }
}

/// True when the two character sequences are equal.
pub fn eq_chars(a: &[char], b: &[char]) -> (r: bool)
    ensures
        r == (a@ == b@),
{
    if a.len() != b.len() {
        return false;
    }
    let mut i: usize = 0;
    while i < a.len()
        invariant
            a.len() == b.len(),
            i <= a.len(),
            forall|j: int| 0 <= j < i ==> a@[j] == b@[j],
        decreases a.len() - i,
    {
        if a[i] != b[i] {
            return false;
        }
        i = i + 1;
    }
    assert(a@ =~= b@);
    true
}

pub fn has_prefix_exec(s: &[char], p: &[char]) -> (r: bool)
    ensures
        r == has_prefix(s@, p@),
{
    occurs_at_exec(s, p, 0)
}

pub fn has_suffix_exec(s: &[char], p: &[char]) -> (r: bool)
    ensures
        r == has_suffix(s@, p@),
{
    if p.len() > s.len() {
        return false;
    }
    let r = occurs_at_exec(s, p, s.len() - p.len());
    assert(s@.subrange(s@.len() - p@.len(), s@.len() - p@.len() + p@.len()) =~= s@.skip(
        s@.len() - p@.len(),
    ));
    r
}

/// The concatenation of two character vectors.
pub fn concat(a: &[char], b: &[char]) -> (r: Vec<char>)
    ensures
        r@ == a@ + b@,
{
    let mut r = slice_vec(a, 0, a.len());
    assert(a@.subrange(0, a@.len() as int) =~= a@);
    push_all(&mut r, b);
    r
}

} // verus!

verus! {

/// The ASCII digit of a number below ten.
pub open spec fn digit_char(d: int) -> char {
    ((d + 48) as u32) as char
}

/// The decimal digits of a natural number, without leading zeros.
pub open spec fn decimal(n: nat) -> Seq<char>
    decreases n,
{
    if n < 10 {
        seq![digit_char(n as int)]
    } else {
        decimal(n / 10) + seq![digit_char((n % 10) as int)]
    }
}

/// `s` with zeros in front, to at least `w` characters.
pub open spec fn zero_pad(s: Seq<char>, w: nat) -> Seq<char> {
    if s.len() >= w {
        s
    } else {
        Seq::new((w - s.len()) as nat, |i: int| '0') + s
    }
}

/// An integer as `format!("{n:0w}")` writes it: the sign, then the digits with zeros to width `w`.
pub open spec fn padded(n: int, w: nat) -> Seq<char> {
    if n < 0 {
        seq!['-'] + zero_pad(decimal((-n) as nat), if w > 0 { (w - 1) as nat } else { 0 })
    } else {
        zero_pad(decimal(n as nat), w)
    }
}

/// The decimal digits of `n`.
pub fn decimal_exec(n: u64) -> (r: Vec<char>)
    ensures
        r@ == decimal(n as nat),
    decreases n,
{
    if n < 10 {
        let c = char_of_digit(n);
        let mut v: Vec<char> = Vec::new();
        v.push(c);
        assert(v@ =~= seq![digit_char(n as int)]);
        v
    } else {
        let mut v = decimal_exec(n / 10);
        v.push(char_of_digit(n % 10));
        v
    }
}

fn char_of_digit(d: u64) -> (c: char)
    requires
        d < 10,
    ensures
        c == digit_char(d as int),
{
    let chars = ['0', '1', '2', '3', '4', '5', '6', '7', '8', '9'];
    let c = chars[d as usize];
    assert(c == digit_char(d as int)) by {
        assert(chars@ == seq!['0', '1', '2', '3', '4', '5', '6', '7', '8', '9']);
    }
    c
}

/// Appends `n` as `format!("{n:0w}")` writes it.
pub fn push_padded(out: &mut Vec<char>, n: i64, w: usize)
    ensures
        final(out)@ == old(out)@ + padded(n as int, w as nat),
{
    let ghost start = out@;
    let magnitude: u64 = if n < 0 {
        if n == i64::MIN {
            9223372036854775808u64
        } else {
            (-n) as u64
        }
    } else {
        n as u64
    };
    let width: usize = if n < 0 {
        out.push('-');
        if w > 0 { w - 1 } else { 0 }
    } else {
        w
    };
    let digits = decimal_exec(magnitude);
    let ghost before_zeros = out@;
    let mut k: usize = digits.len();
    while k < width
        invariant
            digits.len() <= k <= width || width < digits.len() && k == digits.len(),
            out@ == before_zeros + Seq::new((k - digits@.len()) as nat, |i: int| '0'),
        decreases width - k,
    {
        out.push('0');
        k = k + 1;
        assert(out@ =~= before_zeros + Seq::new((k - digits@.len()) as nat, |i: int| '0'));
    }
    push_all(out, &digits);
    proof {
        if digits@.len() >= width {
            assert(Seq::new((k - digits@.len()) as nat, |i: int| '0') =~= Seq::<char>::empty());
            assert(out@ =~= before_zeros + digits@);
        } else {
            assert(out@ =~= before_zeros + (Seq::new((width - digits@.len()) as nat, |i: int| '0')
                + digits@));
        }
        if n < 0 {
            assert(before_zeros == start + seq!['-']);
        } else {
            assert(before_zeros == start);
        }
    }
}

} // verus!

verus! {

/// The value of a sequence of ASCII digits.
pub open spec fn digits_value(s: Seq<char>) -> int
    decreases s.len(),
{
    if s.len() == 0 {
        0
    } else {
        digits_value(s.drop_last()) * 10 + (s.last() as int - 48)
    }
}

/// True when every character of `s` is an ASCII digit.
pub open spec fn all_digits(s: Seq<char>) -> bool {
    forall|i: int| 0 <= i < s.len() ==> is_digit(#[trigger] s[i])
}

/// The integer that `str::parse::<i64>` reads: an optional '+' or '-', then one or more ASCII
/// digits, with a value in the range of `i64`.
pub open spec fn parse_int(s: Seq<char>) -> Option<int> {
    let signed = s.len() > 0 && (s[0] == '-' || s[0] == '+');
    let body = if signed {
        s.drop_first()
    } else {
        s
    };
    if body.len() == 0 || !all_digits(body) {
        None
    } else {
        let v = if signed && s[0] == '-' {
            -digits_value(body)
        } else {
            digits_value(body)
        };
        if i64::MIN <= v <= i64::MAX {
            Some(v)
        } else {
            None
        }
    }
}

proof fn lemma_digits_grow(s: Seq<char>, k: int)
    requires
        0 <= k <= s.len(),
        all_digits(s),
    ensures
        digits_value(s.take(k)) <= digits_value(s),
        0 <= digits_value(s.take(k)),
    decreases s.len() - k,
{
    if k < s.len() {
        lemma_digits_grow(s, k + 1);
        assert(s.take(k + 1).drop_last() =~= s.take(k));
        assert(is_digit(s[k]));
        lemma_digits_nonneg(s.take(k));
    } else {
        assert(s.take(k) =~= s);
        lemma_digits_nonneg(s);
    }
}

proof fn lemma_digits_nonneg(s: Seq<char>)
    requires
        all_digits(s),
    ensures
        0 <= digits_value(s),
    decreases s.len(),
{
    if s.len() > 0 {
        lemma_digits_nonneg(s.drop_last());
    }
}

pub fn all_digits_exec(s: &[char]) -> (r: bool)
    ensures
        r == all_digits(s@),
{
    let mut i: usize = 0;
    while i < s.len()
        invariant
            i <= s.len(),
            forall|j: int| 0 <= j < i ==> is_digit(#[trigger] s@[j]),
        decreases s.len() - i,
    {
        if !('0' <= s[i] && s[i] <= '9') {
            return false;
        }
        i = i + 1;
    }
    true
}

/// Reads an integer as `str::parse::<i64>` does.
pub fn parse_i64(s: &[char]) -> (r: Option<i64>)
    ensures
        match r {
            Some(v) => parse_int(s@) == Some(v as int),
            None => parse_int(s@) is None,
        },
{
    let signed = s.len() > 0 && (s[0] == '-' || s[0] == '+');
    let negative = signed && s[0] == '-';
    let start: usize = if signed { 1 } else { 0 };
    let body = slice_vec(s, start, s.len());
    proof {
        if signed {
            assert(body@ =~= s@.drop_first());
        } else {
            assert(body@ =~= s@);
        }
    }
    if body.len() == 0 || !all_digits_exec(&body) {
        return None;
    }
    let limit: u128 = 9223372036854775808;
    let mut acc: u128 = 0;
    let mut i: usize = 0;
    while i < body.len()
        invariant
            i <= body.len(),
            all_digits(body@),
            acc as int == digits_value(body@.take(i as int)),
            acc <= limit,
            limit == 9223372036854775808,
            signed == (s@.len() > 0 && (s@[0] == '-' || s@[0] == '+')),
            negative == (signed && s@[0] == '-'),
            body@ == if signed {
                s@.drop_first()
            } else {
                s@
            },
        decreases body.len() - i,
    {
        assert(body@.take(i + 1).drop_last() =~= body@.take(i as int));
        assert(is_digit(body@[i as int]));
        let n = body[i] as u32;
        assert(48 <= n <= 57);
        let d = (n - 48) as u128;
        assert(acc * 10 + d <= 92233720368547758090) by (nonlinear_arith)
            requires
                acc <= 9223372036854775808,
                d < 10,
        ;
        acc = acc * 10 + d;
        i = i + 1;
        if acc > limit {
            proof {
                lemma_digits_grow(body@, i as int);
            }
            return None;
        }
    }
    assert(body@.take(i as int) =~= body@);
    if negative {
        if acc == limit {
            Some(i64::MIN)
        } else {
            Some(-(acc as i64))
        }
    } else if acc == limit {
        None
    } else {
        Some(acc as i64)
    }
}

} // verus!

verus! {

/// The first index at or after `from` whose character is not white space, or the length of `s`.
pub open spec fn white_end(s: Seq<char>, from: int) -> int
    decreases s.len() - from,
{
    if from < 0 || from >= s.len() {
        s.len() as int
    } else if is_white(s[from]) {
        white_end(s, from + 1)
    } else {
        from
    }
}

/// The end of `s[from..to]` without the white space at its end.
pub open spec fn white_start(s: Seq<char>, from: int, to: int) -> int
    decreases to - from,
{
    if from < 0 || to <= from || to > s.len() {
        to
    } else if is_white(s[to - 1]) {
        white_start(s, from, to - 1)
    } else {
        to
    }
}

/// `s` without white space at its start and its end, as `str::trim` gives it.
pub open spec fn trim(s: Seq<char>) -> Seq<char> {
    let a = white_end(s, 0);
    s.subrange(a, white_start(s, a, s.len() as int))
}

/// `s` without white space at its end, as `str::trim_end` gives it.
pub open spec fn trim_end(s: Seq<char>) -> Seq<char> {
    s.take(white_start(s, 0, s.len() as int))
}

pub proof fn lemma_white_end(s: Seq<char>, from: int)
    requires
        0 <= from <= s.len(),
    ensures
        from <= white_end(s, from) <= s.len(),
    decreases s.len() - from,
{
    if from < s.len() && is_white(s[from]) {
        lemma_white_end(s, from + 1);
    }
}

pub proof fn lemma_white_start(s: Seq<char>, from: int, to: int)
    requires
        0 <= from <= to <= s.len(),
    ensures
        from <= white_start(s, from, to) <= to,
    decreases to - from,
{
    if from < to && is_white(s[to - 1]) {
        lemma_white_start(s, from, to - 1);
    }
}

pub fn white_end_exec(s: &[char], from: usize) -> (r: usize)
    requires
        from <= s.len(),
    ensures
        r as int == white_end(s@, from as int),
        from <= r <= s.len(),
{
    let mut i = from;
    while i < s.len()
        invariant
            from <= i <= s.len(),
            white_end(s@, from as int) == white_end(s@, i as int),
        decreases s.len() - i,
    {
        if !is_white_exec(s[i]) {
            return i;
        }
        i = i + 1;
    }
    i
}

pub fn white_start_exec(s: &[char], from: usize, to: usize) -> (r: usize)
    requires
        from <= to <= s.len(),
    ensures
        r as int == white_start(s@, from as int, to as int),
        from <= r <= to,
{
    let mut e = to;
    while e > from
        invariant
            from <= e <= to <= s.len(),
            white_start(s@, from as int, to as int) == white_start(s@, from as int, e as int),
        decreases e - from,
    {
        if !is_white_exec(s[e - 1]) {
            return e;
        }
        e = e - 1;
    }
    e
}

/// The characters of `s` without white space at its start and its end.
pub fn trim_chars(s: &[char]) -> (r: Vec<char>)
    ensures
        r@ == trim(s@),
{
    let a = white_end_exec(s, 0);
    let b = white_start_exec(s, a, s.len());
    slice_vec(s, a, b)
}

/// The characters of `s` without white space at its end.
pub fn trim_end_chars(s: &[char]) -> (r: Vec<char>)
    ensures
        r@ == trim_end(s@),
{
    let b = white_start_exec(s, 0, s.len());
    slice_vec(s, 0, b)
}

/// The piece number `k` of `s.split(sep)`, when `s` has that many pieces.
pub open spec fn piece(s: Seq<char>, sep: char, k: nat) -> Option<Seq<char>>
    decreases k,
{
    let i = first_of(s, seq![sep], 0);
    if k == 0 {
        Some(s.take(i))
    } else if i < s.len() {
        piece(s.skip(i + 1), sep, (k - 1) as nat)
    } else {
        None
    }
}

pub fn piece_exec(s: &[char], sep: char, k: usize) -> (r: Option<Vec<char>>)
    ensures
        match r {
            Some(p) => piece(s@, sep, k as nat) == Some(p@),
            None => piece(s@, sep, k as nat) is None,
        },
{
    let set = [sep];
    assert(set@ =~= seq![sep]);
    let mut rest = slice_vec(s, 0, s.len());
    assert(rest@ =~= s@);
    let mut j: usize = k;
    loop
        invariant
            set@ == seq![sep],
            j <= k,
            piece(s@, sep, k as nat) == piece(rest@, sep, j as nat),
        decreases j,
    {
        let i = first_of_exec(&rest, &set, 0);
        proof {
            lemma_first_of(rest@, seq![sep], 0);
        }
        if j == 0 {
            return Some(slice_vec(&rest, 0, i));
        }
        if i < rest.len() {
            rest = slice_vec(&rest, i + 1, rest.len());
            j = j - 1;
        } else {
            return None;
        }
    }
}

} // verus!

verus! {

/// The pieces of `s` split at each occurrence of the non-empty `pat`, as `str::split` gives them.
pub open spec fn split_at_pat(s: Seq<char>, pat: Seq<char>) -> Seq<Seq<char>>
    decreases s.len(),
{
    match find_from(s, pat, 0) {
        Some(i) => if 0 <= i && 0 < pat.len() && i + pat.len() <= s.len() {
            seq![s.take(i)] + split_at_pat(s.skip(i + pat.len()), pat)
        } else {
            seq![s]
        },
        None => seq![s],
    }
}

pub proof fn lemma_find_from(s: Seq<char>, pat: Seq<char>, from: int)
    ensures
        find_from(s, pat, from) matches Some(i) ==> from <= i && occurs_at(s, pat, i),
    decreases s.len() - from,
{
    if !(from < 0 || from >= s.len() || from + pat.len() > s.len()) && !occurs_at(s, pat, from) {
        lemma_find_from(s, pat, from + 1);
    }
}

/// The pieces of `s` split at `pat`.
pub fn split_pat_exec(s: &[char], pat: &[char]) -> (r: Vec<Vec<char>>)
    requires
        pat@.len() > 0,
    ensures
        r@.map_values(|p: Vec<char>| p@) == split_at_pat(s@, pat@),
{
    let mut out: Vec<Vec<char>> = Vec::new();
    let mut rest = slice_vec(s, 0, s.len());
    assert(rest@ =~= s@);
    assert(out@.map_values(|p: Vec<char>| p@) + split_at_pat(rest@, pat@) =~= split_at_pat(s@, pat@));
    loop
        invariant
            pat@.len() > 0,
            split_at_pat(s@, pat@) == out@.map_values(|p: Vec<char>| p@) + split_at_pat(rest@, pat@),
        decreases rest@.len(),
    {
        let ghost before = out@.map_values(|p: Vec<char>| p@);
        match find_from_exec(&rest, pat, 0) {
            Some(i) => {
                proof {
                    lemma_find_from(rest@, pat@, 0);
                }
                out.push(slice_vec(&rest, 0, i));
                assert(out@.map_values(|p: Vec<char>| p@) =~= before + seq![rest@.take(i as int)]);
                let n = pat.len();
                assert(i + n <= rest.len());
                rest = slice_vec(&rest, i + n, rest.len());
            },
            None => {
                let last = slice_vec(&rest, 0, rest.len());
                assert(last@ =~= rest@);
                out.push(last);
                assert(out@.map_values(|p: Vec<char>| p@) =~= before + seq![rest@]);
                return out;
            },
        }
    }
}

/// The index of the last character of `s[..to]` that is in `set`, or -1.
pub open spec fn last_of(s: Seq<char>, set: Seq<char>, to: int) -> int
    decreases to,
{
    if to <= 0 || to > s.len() {
        -1
    } else if set.contains(s[to - 1]) {
        to - 1
    } else {
        last_of(s, set, to - 1)
    }
}

pub proof fn lemma_last_of(s: Seq<char>, set: Seq<char>, to: int)
    requires
        0 <= to <= s.len(),
    ensures
        -1 <= last_of(s, set, to) < to,
    decreases to,
{
    if to > 0 && !set.contains(s[to - 1]) {
        lemma_last_of(s, set, to - 1);
    }
}

pub fn last_of_exec(s: &[char], set: &[char]) -> (r: Option<usize>)
    ensures
        match r {
            Some(i) => last_of(s@, set@, s@.len() as int) == i && i < s@.len(),
            None => last_of(s@, set@, s@.len() as int) == -1,
        },
{
    let mut e = s.len();
    while e > 0
        invariant
            e <= s.len(),
            last_of(s@, set@, s@.len() as int) == last_of(s@, set@, e as int),
        decreases e,
    {
        if contains_char(set, s[e - 1]) {
            return Some(e - 1);
        }
        e = e - 1;
    }
    None
}

/// `s` up to the first occurrence of `pat`, as `String::truncate` at `str::find` leaves it.
pub open spec fn cut_at(s: Seq<char>, pat: Seq<char>) -> Seq<char> {
    match find_from(s, pat, 0) {
        Some(i) => if 0 <= i <= s.len() {
            s.take(i)
        } else {
            s
        },
        None => s,
    }
}

pub fn cut_at_exec(s: &[char], pat: &[char]) -> (r: Vec<char>)
    ensures
        r@ == cut_at(s@, pat@),
{
    match find_from_exec(s, pat, 0) {
        Some(i) => {
            proof {
                lemma_find_from(s@, pat@, 0);
            }
            slice_vec(s, 0, i)
        },
        None => {
            let r = slice_vec(s, 0, s.len());
            assert(r@ =~= s@);
            r
        },
    }
}

} // verus!

verus! {

/// The order of `str` and `String`: lexicographic by Unicode scalar values, which is the order of
/// their UTF-8 bytes.
pub open spec fn lex_lt(a: Seq<char>, b: Seq<char>) -> bool
    decreases a.len(),
{
    if a.len() == 0 {
        b.len() > 0
    } else if b.len() == 0 {
        false
    } else if a[0] < b[0] {
        true
    } else if a[0] > b[0] {
        false
    } else {
        lex_lt(a.drop_first(), b.drop_first())
    }
}

pub proof fn lemma_lex_irreflexive(a: Seq<char>)
    ensures
        !lex_lt(a, a),
    decreases a.len(),
{
    if a.len() > 0 {
        lemma_lex_irreflexive(a.drop_first());
    }
}

pub proof fn lemma_lex_total(a: Seq<char>, b: Seq<char>)
    ensures
        a == b || lex_lt(a, b) || lex_lt(b, a),
    decreases a.len(),
{
    if a.len() > 0 && b.len() > 0 && a[0] == b[0] {
        lemma_lex_total(a.drop_first(), b.drop_first());
        if a.drop_first() == b.drop_first() {
            assert(a[0] == b[0]);
            assert(a =~= seq![a[0]] + a.drop_first());
            assert(b =~= seq![b[0]] + b.drop_first());
        }
    } else if a.len() == 0 && b.len() == 0 {
        assert(a =~= b);
    }
}

pub proof fn lemma_lex_asym(a: Seq<char>, b: Seq<char>)
    ensures
        !(lex_lt(a, b) && lex_lt(b, a)),
    decreases a.len(),
{
    if a.len() > 0 && b.len() > 0 && a[0] == b[0] {
        lemma_lex_asym(a.drop_first(), b.drop_first());
    }
}

pub proof fn lemma_lex_trans(a: Seq<char>, b: Seq<char>, c: Seq<char>)
    requires
        lex_lt(a, b),
        lex_lt(b, c),
    ensures
        lex_lt(a, c),
    decreases a.len(),
{
    if a.len() > 0 && b.len() > 0 && c.len() > 0 && a[0] == b[0] && b[0] == c[0] {
        lemma_lex_trans(a.drop_first(), b.drop_first(), c.drop_first());
    }
}

pub fn lex_lt_exec(a: &[char], b: &[char]) -> (r: bool)
    ensures
        r == lex_lt(a@, b@),
{
    let mut i: usize = 0;
    assert(a@.skip(0) =~= a@);
    assert(b@.skip(0) =~= b@);
    while i < a.len() && i < b.len()
        invariant
            i <= a.len(),
            i <= b.len(),
            lex_lt(a@, b@) == lex_lt(a@.skip(i as int), b@.skip(i as int)),
        decreases a.len() - i,
    {
        assert(a@.skip(i as int)[0] == a@[i as int]);
        assert(b@.skip(i as int)[0] == b@[i as int]);
        if a[i] < b[i] {
            return true;
        }
        if a[i] > b[i] {
            return false;
        }
        assert(a@.skip(i as int).drop_first() =~= a@.skip(i + 1));
        assert(b@.skip(i as int).drop_first() =~= b@.skip(i + 1));
        i = i + 1;
    }
    i == a.len() && i < b.len()
}

} // verus!

verus! {

/// The character sequences of a list of character vectors.
pub open spec fn char_views(v: Seq<Vec<char>>) -> Seq<Seq<char>> {
    v.map_values(|x: Vec<char>| x@)
}

/// The character sequences of a list of strings.
pub open spec fn string_views(v: Seq<String>) -> Seq<Seq<char>> {
    v.map_values(|x: String| x@)
}

} // verus!
