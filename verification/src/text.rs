//! Verified helpers on strings, stated over their character sequences.

use vstd::prelude::*;

verus! {

/// `s` begins with `prefix`.
pub open spec fn starts_with(s: Seq<char>, prefix: Seq<char>) -> bool {
    prefix.len() <= s.len() && s.subrange(0, prefix.len() as int) == prefix
}

/// `s` ends with `suffix`.
pub open spec fn ends_with(s: Seq<char>, suffix: Seq<char>) -> bool {
    suffix.len() <= s.len() && s.subrange(s.len() - suffix.len(), s.len() as int) == suffix
}

/// `needle` occurs in `s` at character offset `at`.
pub open spec fn occurs_at(s: Seq<char>, needle: Seq<char>, at: int) -> bool {
    0 <= at && at + needle.len() <= s.len() && s.subrange(at, at + needle.len()) == needle
}

/// The characters with the Unicode property `White_Space`.
pub open spec fn is_space(c: char) -> bool {
    let u = c as u32;
    (0x09 <= u <= 0x0d) || u == 0x20 || u == 0x85 || u == 0xa0 || u == 0x1680 || (0x2000 <= u
        <= 0x200a) || u == 0x2028 || u == 0x2029 || u == 0x202f || u == 0x205f || u == 0x3000
}

/// `s` without its leading white space.
pub open spec fn trim_start_spec(s: Seq<char>) -> Seq<char>
    decreases s.len(),
{
    if s.len() > 0 && is_space(s[0]) {
        trim_start_spec(s.subrange(1, s.len() as int))
    } else {
        s
    }
}

/// `s` without its trailing white space.
pub open spec fn trim_end_spec(s: Seq<char>) -> Seq<char>
    decreases s.len(),
{
    if s.len() > 0 && is_space(s[s.len() - 1]) {
        trim_end_spec(s.subrange(0, s.len() - 1))
    } else {
        s
    }
}

/// `s` without leading and trailing white space.
pub open spec fn trim_spec(s: Seq<char>) -> Seq<char> {
    trim_end_spec(trim_start_spec(s))
}

/// The ASCII lower-case form of one character.
pub open spec fn lower_char(c: char) -> char {
    if 'A' <= c <= 'Z' {
        ((c as u8) + 32) as char
    } else {
        c
    }
}

/// The ASCII lower-case form of a sequence: letters `A`..`Z` are mapped, nothing else.
pub open spec fn lower_spec(s: Seq<char>) -> Seq<char> {
    Seq::new(s.len(), |i: int| lower_char(s[i]))
}

/// The decimal digit for a value below ten.
pub open spec fn digit_char(d: nat) -> char {
    (('0' as u8) + d) as char
}

/// The decimal numeral of `n`, without leading zeros.
pub open spec fn decimal_spec(n: nat) -> Seq<char>
    decreases n,
{
    if n < 10 {
        seq![digit_char(n)]
    } else {
        decimal_spec(n / 10).push(digit_char(n % 10))
    }
}

/// The lower-case hexadecimal digit for a value below sixteen.
pub open spec fn hex_digit(d: nat) -> char {
    if d < 10 {
        (('0' as u8) + d) as char
    } else {
        (('a' as u8) + (d - 10)) as char
    }
}

/// The `width` low hexadecimal digits of `n`, most significant first.
pub open spec fn hex_padded_spec(n: nat, width: nat) -> Seq<char>
    decreases width,
{
    if width == 0 {
        Seq::empty()
    } else {
        hex_padded_spec(n / 16, (width - 1) as nat).push(hex_digit(n % 16))
    }
}

/// Appends one character to a string.
///
/// Trusted: `String::push` of the standard library, which appends the given
/// character to the end of the string.
#[verifier::external_body]
pub(crate) fn push_char(s: &mut String, c: char)
    ensures
        final(s)@ == old(s)@.push(c),
{
    s.push(c)
}

/// Collects the characters of a string slice.
pub fn chars_of(s: &str) -> (out: Vec<char>)
    ensures
        out@ == s@,
{
    let mut out: Vec<char> = Vec::new();
    for c in it: s.chars()
        invariant
            out@ == it.seq().take(it.index() as int),
            it.seq() == s@,
    {
        out.push(c);
        assert(out@ =~= it.seq().take(it.index() + 1));
    }
    assert(s@.take(s@.len() as int) =~= s@);
    out
}

/// Builds the string that holds the characters `v[from..to]`.
pub fn string_of_range(v: &Vec<char>, from: usize, to: usize) -> (out: String)
    requires
        from <= to <= v.len(),
    ensures
        out@ == v@.subrange(from as int, to as int),
{
    let mut out = String::new();
    let mut i: usize = from;
    while i < to
        invariant
            from <= i <= to <= v.len(),
            out@ == v@.subrange(from as int, i as int),
        decreases to - i,
    {
        push_char(&mut out, v[i]);
        i = i + 1;
        assert(out@ =~= v@.subrange(from as int, i as int));
    }
    out
}

/// Builds the string that holds the characters of `v`.
pub fn string_of(v: &Vec<char>) -> (out: String)
    ensures
        out@ == v@,
{
    assert(v@.subrange(0, v@.len() as int) =~= v@);
    string_of_range(v, 0, v.len())
}

/// Whether `v[at..at + needle.len()]` equals `needle`.
pub fn matches_at(v: &Vec<char>, needle: &Vec<char>, at: usize) -> (b: bool)
    ensures
        b == occurs_at(v@, needle@, at as int),
{
    let n: usize = v.len();
    let m: usize = needle.len();
    if m > n || at > n - m {
        return false;
    }
    let mut i: usize = 0;
    while i < m
        invariant
            m == needle.len(),
            n == v.len(),
            at + m <= n,
            i <= m,
            forall|k: int| 0 <= k < i ==> v@[at + k] == needle@[k],
        decreases m - i,
    {
        if v[at + i] != needle[i] {
            assert(v@.subrange(at as int, at + m)[i as int] != needle@[i as int]);
            return false;
        }
        i = i + 1;
    }
    assert(v@.subrange(at as int, at + m) =~= needle@);
    true
}

/// Equality of two string slices.
pub fn str_eq(a: &str, b: &str) -> (r: bool)
    ensures
        r == (a@ == b@),
{
    let va = chars_of(a);
    let vb = chars_of(b);
    if va.len() != vb.len() {
        return false;
    }
    let r = matches_at(&va, &vb, 0);
    assert(va@.subrange(0, va@.len() as int) =~= va@);
    r
}

/// Whether `s` begins with `prefix`.
pub fn str_starts_with(s: &str, prefix: &str) -> (r: bool)
    ensures
        r == starts_with(s@, prefix@),
{
    let v = chars_of(s);
    let p = chars_of(prefix);
    matches_at(&v, &p, 0)
}

/// Whether `s` ends with `suffix`.
pub fn str_ends_with(s: &str, suffix: &str) -> (r: bool)
    ensures
        r == ends_with(s@, suffix@),
{
    let v = chars_of(s);
    let p = chars_of(suffix);
    if p.len() > v.len() {
        return false;
    }
    matches_at(&v, &p, v.len() - p.len())
}

/// Whether the character `c` occurs in `s`.
pub fn str_contains_char(s: &str, c: char) -> (r: bool)
    ensures
        r == s@.contains(c),
{
    let v = chars_of(s);
    let mut i: usize = 0;
    while i < v.len()
        invariant
            v@ == s@,
            i <= v.len(),
            forall|k: int| 0 <= k < i ==> v@[k] != c,
        decreases v.len() - i,
    {
        if v[i] == c {
            assert(s@[i as int] == c);
            return true;
        }
        i = i + 1;
    }
    false
}

/// The offset of the first occurrence of `needle` in `s`, counted in characters.
pub fn str_find(s: &str, needle: &str) -> (r: Option<usize>)
    ensures
        match r {
            Some(at) => occurs_at(s@, needle@, at as int) && forall|k: int|
                0 <= k < at ==> !occurs_at(s@, needle@, k),
            None => forall|k: int| !occurs_at(s@, needle@, k),
        },
{
    let v = chars_of(s);
    let p = chars_of(needle);
    if p.len() > v.len() {
        return None;
    }
    let last: usize = v.len() - p.len();
    let mut i: usize = 0;
    while i < last
        invariant
            v@ == s@,
            p@ == needle@,
            last == v.len() - p.len(),
            i <= last,
            forall|k: int| 0 <= k < i ==> !occurs_at(v@, p@, k),
        decreases last - i,
    {
        if matches_at(&v, &p, i) {
            return Some(i);
        }
        i = i + 1;
    }
    if matches_at(&v, &p, last) {
        Some(last)
    } else {
        None
    }
}

/// `s` without the suffix, where it ends with it.
pub fn str_strip_suffix(s: &str, suffix: &str) -> (r: Option<String>)
    ensures
        match r {
            Some(rest) => ends_with(s@, suffix@) && rest@ == s@.subrange(
                0,
                s@.len() - suffix@.len(),
            ),
            None => !ends_with(s@, suffix@),
        },
{
    let v = chars_of(s);
    let p = chars_of(suffix);
    if p.len() > v.len() {
        return None;
    }
    let cut: usize = v.len() - p.len();
    if matches_at(&v, &p, cut) {
        Some(string_of_range(&v, 0, cut))
    } else {
        None
    }
}

/// Whether a character has the Unicode property `White_Space`.
pub fn char_is_space(c: char) -> (r: bool)
    ensures
        r == is_space(c),
{
    let u: u32 = c as u32;
    (0x09 <= u && u <= 0x0d) || u == 0x20 || u == 0x85 || u == 0xa0 || u == 0x1680 || (0x2000
        <= u && u <= 0x200a) || u == 0x2028 || u == 0x2029 || u == 0x202f || u == 0x205f || u
        == 0x3000
}

proof fn lemma_trim_start_skip(s: Seq<char>, k: int)
    requires
        0 <= k <= s.len(),
        forall|j: int| 0 <= j < k ==> is_space(s[j]),
    ensures
        trim_start_spec(s) == trim_start_spec(s.subrange(k, s.len() as int)),
    decreases k,
{
    if k == 0 {
        assert(s.subrange(0, s.len() as int) =~= s);
    } else {
        let t = s.subrange(1, s.len() as int);
        assert forall|j: int| 0 <= j < k - 1 implies is_space(t[j]) by {
            assert(t[j] == s[j + 1]);
        }
        lemma_trim_start_skip(t, k - 1);
        assert(t.subrange(k - 1, t.len() as int) =~= s.subrange(k, s.len() as int));
    }
}

proof fn lemma_trim_end_skip(s: Seq<char>, k: int)
    requires
        0 <= k <= s.len(),
        forall|j: int| k <= j < s.len() ==> is_space(s[j]),
    ensures
        trim_end_spec(s) == trim_end_spec(s.subrange(0, k)),
    decreases s.len() - k,
{
    if k == s.len() {
        assert(s.subrange(0, k) =~= s);
    } else {
        let t = s.subrange(0, s.len() - 1);
        lemma_trim_end_skip(t, k);
        assert(t.subrange(0, k) =~= s.subrange(0, k));
    }
}

/// The offset of the first character of `v` at or after `from` that is no white space.
fn skip_spaces(v: &Vec<char>) -> (k: usize)
    ensures
        k <= v.len(),
        trim_start_spec(v@) == v@.subrange(k as int, v@.len() as int),
{
    let mut k: usize = 0;
    while k < v.len() && char_is_space(v[k])
        invariant
            k <= v.len(),
            forall|j: int| 0 <= j < k ==> is_space(v@[j]),
        decreases v.len() - k,
    {
        k = k + 1;
    }
    proof {
        lemma_trim_start_skip(v@, k as int);
        let rest = v@.subrange(k as int, v@.len() as int);
        if rest.len() > 0 {
            assert(rest[0] == v@[k as int]);
        }
    }
    k
}

/// `s` without its leading white space.
pub fn str_trim_start(s: &str) -> (out: String)
    ensures
        out@ == trim_start_spec(s@),
{
    let v = chars_of(s);
    let k = skip_spaces(&v);
    string_of_range(&v, k, v.len())
}

/// `s` without leading and trailing white space.
pub fn str_trim(s: &str) -> (out: String)
    ensures
        out@ == trim_spec(s@),
{
    let v = chars_of(s);
    let start = skip_spaces(&v);
    let mut end: usize = v.len();
    while end > start && char_is_space(v[end - 1])
        invariant
            start <= end <= v.len(),
            forall|j: int| end <= j < v.len() ==> is_space(v@[j]),
        decreases end,
    {
        end = end - 1;
    }
    proof {
        let t = v@.subrange(start as int, v@.len() as int);
        assert forall|j: int| end - start <= j < t.len() implies is_space(t[j]) by {
            assert(t[j] == v@[start + j]);
        }
        lemma_trim_end_skip(t, end - start);
        let u = t.subrange(0, end - start);
        assert(u =~= v@.subrange(start as int, end as int));
        if u.len() > 0 {
            assert(u[u.len() - 1] == v@[end - 1]);
        }
    }
    string_of_range(&v, start, end)
}

/// The ASCII lower-case form of one character.
pub fn char_to_lower(c: char) -> (r: char)
    ensures
        r == lower_char(c),
{
    if 'A' <= c && c <= 'Z' {
        let b: u8 = c as u8;
        (b + 32) as char
    } else {
        c
    }
}

/// The ASCII lower-case form of `s`.
pub fn str_to_ascii_lowercase(s: &str) -> (out: String)
    ensures
        out@ == lower_spec(s@),
{
    let v = chars_of(s);
    let mut out = String::new();
    let mut i: usize = 0;
    while i < v.len()
        invariant
            i <= v.len(),
            out@ == lower_spec(v@).subrange(0, i as int),
        decreases v.len() - i,
    {
        push_char(&mut out, char_to_lower(v[i]));
        i = i + 1;
        assert(out@ =~= lower_spec(v@).subrange(0, i as int));
    }
    assert(lower_spec(v@).subrange(0, v@.len() as int) =~= lower_spec(v@));
    out
}

/// The decimal numeral of `n`.
pub fn decimal(n: u64) -> (out: String)
    ensures
        out@ == decimal_spec(n as nat),
    decreases n,
{
    if n < 10 {
        let mut out = String::new();
        push_char(&mut out, (48u8 + (n as u8)) as char);
        assert(out@ =~= seq![digit_char(n as nat)]);
        out
    } else {
        let mut out = decimal(n / 10);
        push_char(&mut out, (48u8 + ((n % 10) as u8)) as char);
        out
    }
}

/// The lower-case hexadecimal digit for a value below sixteen.
pub fn hex_digit_char(d: u8) -> (c: char)
    requires
        d < 16,
    ensures
        c == hex_digit(d as nat),
{
    if d < 10 {
        (48u8 + d) as char
    } else {
        (97u8 + (d - 10)) as char
    }
}

/// The sixteen hexadecimal digits of `n`, zero padded.
pub fn hex16(n: u64) -> (out: String)
    ensures
        out@ == hex_padded_spec(n as nat, 16),
{
    let mut digits: Vec<char> = Vec::new();
    let mut rest: u64 = n;
    let mut i: usize = 0;
    // digits are produced least significant first, then reversed
    while i < 16
        invariant
            i <= 16,
            digits.len() == i,
            forall|w: nat| #[trigger]
                hex_padded_spec(n as nat, (i + w) as nat) == hex_padded_spec(rest as nat, w)
                    + Seq::new(i as nat, |k: int| digits@[i - 1 - k]),
        decreases 16 - i,
    {
        let d: u8 = (rest % 16) as u8;
        let c = hex_digit_char(d);
        proof {
            let old_digits = digits@;
            let new_digits = digits@.push(c);
            assert forall|w: nat| #[trigger]
                hex_padded_spec(n as nat, (i + 1 + w) as nat) == hex_padded_spec(
                    (rest / 16) as nat,
                    w,
                ) + Seq::new((i + 1) as nat, |k: int| new_digits[i - k]) by {
                assert(hex_padded_spec(n as nat, (i + (w + 1)) as nat) == hex_padded_spec(
                    rest as nat,
                    w + 1,
                ) + Seq::new(i as nat, |k: int| old_digits[i - 1 - k]));
                assert(hex_padded_spec(rest as nat, w + 1) == hex_padded_spec(
                    (rest / 16) as nat,
                    w,
                ).push(c));
                assert(hex_padded_spec((rest / 16) as nat, w).push(c) + Seq::new(
                    i as nat,
                    |k: int| old_digits[i - 1 - k],
                ) =~= hex_padded_spec((rest / 16) as nat, w) + Seq::new(
                    (i + 1) as nat,
                    |k: int| new_digits[i - k],
                ));
            }
        }
        digits.push(c);
        rest = rest / 16;
        i = i + 1;
    }
    let mut out = String::new();
    let mut j: usize = 16;
    while j > 0
        invariant
            j <= 16,
            digits.len() == 16,
            out@ == Seq::new((16 - j) as nat, |k: int| digits@[15 - k]),
        decreases j,
    {
        j = j - 1;
        push_char(&mut out, digits[j]);
        assert(out@ =~= Seq::new((16 - j) as nat, |k: int| digits@[15 - k]));
    }
    proof {
        assert(hex_padded_spec(n as nat, (16 + 0) as nat) == hex_padded_spec(rest as nat, 0)
            + Seq::new(16, |k: int| digits@[16 - 1 - k]));
        assert(hex_padded_spec(rest as nat, 0) + Seq::new(16, |k: int| digits@[16 - 1 - k])
            =~= out@);
    }
    out
}

/// The concatenation of two strings.
pub fn concat2(a: &str, b: &str) -> (out: String)
    ensures
        out@ == a@ + b@,
{
    let mut out = String::from_str(a);
    out.append(b);
    out
}

/// The concatenation of three strings.
pub fn concat3(a: &str, b: &str, c: &str) -> (out: String)
    ensures
        out@ == a@ + b@ + c@,
{
    let mut out = String::from_str(a);
    out.append(b);
    out.append(c);
    out
}

} // verus!
