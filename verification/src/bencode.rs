//! The framing of bencoded data.
//!
//! A bencoded value is a byte string (`<length>:<bytes>`), an integer
//! (`i<digits>e`), a list (`l<values>e`) or a dictionary
//! (`d<key><value>...e`, the keys being byte strings). The torrent parser
//! is handed only data that begins with one complete value whose lists and
//! dictionaries are nested no deeper than [`MAX_NESTING`]: on anything
//! else it cannot be relied on to come back with an answer.

use vstd::prelude::*;

verus! {

/// How deep lists and dictionaries may be nested.
pub const MAX_NESTING: usize = 64;

/// Whether the byte is a decimal digit.
pub open spec fn is_digit(b: u8) -> bool {
    48 <= b <= 57
}

/// The first position at or after `pos` that holds no digit.
pub open spec fn digits_end(bytes: Seq<u8>, pos: int) -> int
    decreases bytes.len() - pos,
{
    if 0 <= pos < bytes.len() && is_digit(bytes[pos]) {
        digits_end(bytes, pos + 1)
    } else {
        pos
    }
}

/// The number that the digits from `from` up to `to` write.
pub open spec fn number(bytes: Seq<u8>, from: int, to: int) -> int
    decreases to - from,
{
    if to <= from {
        0
    } else {
        number(bytes, from, to - 1) * 10 + (bytes[to - 1] - 48)
    }
}

/// The first position at or after `pos` that holds the byte `b`.
pub open spec fn find_byte(bytes: Seq<u8>, pos: int, b: u8) -> Option<int>
    decreases bytes.len() - pos,
{
    if pos < 0 || pos >= bytes.len() {
        None
    } else if bytes[pos] == b {
        Some(pos)
    } else {
        find_byte(bytes, pos + 1, b)
    }
}

/// Where the byte string that begins at `pos` ends: after its digits, a
/// colon and as many bytes as the digits say, if the data holds that many.
pub open spec fn string_end(bytes: Seq<u8>, pos: int) -> Option<int> {
    let colon = digits_end(bytes, pos);
    if pos < 0 || colon <= pos || colon >= bytes.len() || bytes[colon] != 58 {
        None
    } else {
        let end = colon + 1 + number(bytes, pos, colon);
        if end <= bytes.len() {
            Some(end)
        } else {
            None
        }
    }
}

/// Where the integer that begins with the `i` at `pos` ends: after the
/// next `e`. What stands between the two is left to the parser.
pub open spec fn integer_end(bytes: Seq<u8>, pos: int) -> Option<int> {
    match find_byte(bytes, pos + 1, 101) {
        Some(e) => Some(e + 1),
        None => None,
    }
}

/// Where the value that begins at `pos` ends, its lists and dictionaries
/// being nested at most `depth` deep; nothing where no complete value
/// begins there.
pub open spec fn value_end(bytes: Seq<u8>, pos: int, depth: nat) -> Option<int>
    decreases depth, bytes.len() - pos, 0int,
{
    if pos < 0 || pos >= bytes.len() {
        None
    } else if is_digit(bytes[pos]) {
        string_end(bytes, pos)
    } else if bytes[pos] == 105 {
        integer_end(bytes, pos)
    } else if bytes[pos] == 108 && depth > 0 {
        items_end(bytes, pos + 1, (depth - 1) as nat)
    } else if bytes[pos] == 100 && depth > 0 {
        entries_end(bytes, pos + 1, (depth - 1) as nat)
    } else {
        None
    }
}

/// Where the list ends whose items from `pos` on are still to come.
pub open spec fn items_end(bytes: Seq<u8>, pos: int, depth: nat) -> Option<int>
    decreases depth, bytes.len() - pos, 1int,
{
    if pos < 0 || pos >= bytes.len() {
        None
    } else if bytes[pos] == 101 {
        Some(pos + 1)
    } else {
        match value_end(bytes, pos, depth) {
            Some(next) => if pos < next <= bytes.len() {
                items_end(bytes, next, depth)
            } else {
                None
            },
            None => None,
        }
    }
}

/// Where the dictionary ends whose entries from `pos` on are still to come.
pub open spec fn entries_end(bytes: Seq<u8>, pos: int, depth: nat) -> Option<int>
    decreases depth, bytes.len() - pos, 1int,
{
    if pos < 0 || pos >= bytes.len() {
        None
    } else if bytes[pos] == 101 {
        Some(pos + 1)
    } else {
        match string_end(bytes, pos) {
            Some(key_end) => if pos < key_end {
                match value_end(bytes, key_end, depth) {
                    Some(next) => if key_end < next <= bytes.len() {
                        entries_end(bytes, next, depth)
                    } else {
                        None
                    },
                    None => None,
                }
            } else {
                None
            },
            None => None,
        }
    }
}

/// The data begins with one complete value of bounded nesting.
pub open spec fn framed(bytes: Seq<u8>) -> bool {
    value_end(bytes, 0, MAX_NESTING as nat) is Some
}

/// What a search gave: the position found, or nothing.
pub open spec fn found(r: Option<usize>) -> Option<int> {
    match r {
        Some(p) => Some(p as int),
        None => None,
    }
}

/// Digits write no negative number.
pub proof fn lemma_number_nonnegative(bytes: Seq<u8>, from: int, to: int)
    requires
        0 <= from <= to <= bytes.len(),
        forall|k: int| from <= k < to ==> is_digit(#[trigger] bytes[k]),
    ensures
        0 <= number(bytes, from, to),
    decreases to - from,
{
    if from < to {
        lemma_number_nonnegative(bytes, from, to - 1);
        assert(is_digit(bytes[to - 1]));
    }
}

/// The run of digits that begins at `pos` ends where `digits_end` says.
pub proof fn lemma_digits_end(bytes: Seq<u8>, pos: int, cur: int)
    requires
        0 <= pos <= cur <= bytes.len(),
        forall|k: int| pos <= k < cur ==> is_digit(#[trigger] bytes[k]),
    ensures
        digits_end(bytes, pos) == digits_end(bytes, cur),
    decreases cur - pos,
{
    if pos < cur {
        assert(is_digit(bytes[pos]));
        lemma_digits_end(bytes, pos + 1, cur);
    }
}

/// Where the byte string that begins at `pos` ends.
fn scan_string(bytes: &[u8], pos: usize) -> (r: Option<usize>)
    ensures
        found(r) == string_end(bytes@, pos as int),
{
    let n: usize = bytes.len();
    let mut cur: usize = pos;
    let mut value: usize = 0;
    let mut over: bool = false;
    while cur < n && 48 <= bytes[cur] && bytes[cur] <= 57
        invariant
            n == bytes@.len(),
            pos <= cur,
            cur <= n || cur == pos,
            forall|k: int| pos <= k < cur ==> is_digit(#[trigger] bytes@[k]),
            !over ==> value == number(bytes@, pos as int, cur as int) && value <= n,
            over ==> number(bytes@, pos as int, cur as int) > n,
        decreases n - cur,
    {
        let digit: usize = (bytes[cur] - 48) as usize;
        proof {
            lemma_number_nonnegative(bytes@, pos as int, cur as int);
        }
        if !over {
            if digit > n || value > (n - digit) / 10 {
                over = true;
            } else {
                value = value * 10 + digit;
            }
        }
        cur = cur + 1;
    }
    if pos > n {
        return None;
    }
    proof {
        lemma_digits_end(bytes@, pos as int, cur as int);
    }
    if cur == pos || cur >= n || bytes[cur] != 58 {
        return None;
    }
    if over || value > n - cur - 1 {
        return None;
    }
    Some(cur + 1 + value)
}

/// Where the integer that begins with the `i` at `pos` ends.
fn scan_integer(bytes: &[u8], pos: usize) -> (r: Option<usize>)
    requires
        pos < bytes@.len(),
    ensures
        found(r) == integer_end(bytes@, pos as int),
{
    let n: usize = bytes.len();
    let mut cur: usize = pos + 1;
    while cur < n
        invariant
            n == bytes@.len(),
            pos < cur <= n,
            find_byte(bytes@, pos + 1, 101) == find_byte(bytes@, cur as int, 101),
        decreases n - cur,
    {
        if bytes[cur] == 101 {
            return Some(cur + 1);
        }
        cur = cur + 1;
    }
    None
}

/// Where the value that begins at `pos` ends, its lists and dictionaries
/// being nested at most `depth` deep.
fn scan_value(bytes: &[u8], pos: usize, depth: usize) -> (r: Option<usize>)
    ensures
        found(r) == value_end(bytes@, pos as int, depth as nat),
    decreases depth,
{
    let n: usize = bytes.len();
    if pos >= n {
        return None;
    }
    let first: u8 = bytes[pos];
    if 48 <= first && first <= 57 {
        return scan_string(bytes, pos);
    }
    if first == 105 {
        return scan_integer(bytes, pos);
    }
    if depth == 0 || (first != 108 && first != 100) {
        return None;
    }
    let keyed: bool = first == 100;
    let inner: usize = depth - 1;
    let ghost whole = value_end(bytes@, pos as int, depth as nat);
    let mut cur: usize = pos + 1;
    loop
        invariant
            n == bytes@.len(),
            pos < cur <= n,
            inner == depth - 1,
            keyed ==> whole == entries_end(bytes@, cur as int, inner as nat),
            !keyed ==> whole == items_end(bytes@, cur as int, inner as nat),
            whole == value_end(bytes@, pos as int, depth as nat),
        decreases n - cur,
    {
        if cur >= n {
            return None;
        }
        if bytes[cur] == 101 {
            return Some(cur + 1);
        }
        let mut at: usize = cur;
        if keyed {
            match scan_string(bytes, cur) {
                Some(key_end) => {
                    if key_end <= cur {
                        return None;
                    }
                    at = key_end;
                },
                None => {
                    return None;
                },
            }
        }
        match scan_value(bytes, at, inner) {
            Some(next) => {
                if next <= at {
                    return None;
                }
                proof {
                    lemma_end_in_range(bytes@, at as int, inner as nat);
                }
                cur = next;
            },
            None => {
                return None;
            },
        }
    }
}

/// A value ends inside the data.
pub proof fn lemma_end_in_range(bytes: Seq<u8>, pos: int, depth: nat)
    ensures
        match value_end(bytes, pos, depth) {
            Some(end) => end <= bytes.len(),
            None => true,
        },
    decreases depth, bytes.len() - pos, 0int,
{
    if pos < 0 || pos >= bytes.len() {
    } else if is_digit(bytes[pos]) {
    } else if bytes[pos] == 105 {
        lemma_find_in_range(bytes, pos + 1, 101);
    } else if bytes[pos] == 108 && depth > 0 {
        lemma_items_in_range(bytes, pos + 1, (depth - 1) as nat);
    } else if bytes[pos] == 100 && depth > 0 {
        lemma_entries_in_range(bytes, pos + 1, (depth - 1) as nat);
    }
}

/// What a search finds lies inside the data.
pub proof fn lemma_find_in_range(bytes: Seq<u8>, pos: int, b: u8)
    ensures
        match find_byte(bytes, pos, b) {
            Some(p) => pos <= p < bytes.len() && bytes[p] == b,
            None => true,
        },
    decreases bytes.len() - pos,
{
    if 0 <= pos < bytes.len() && bytes[pos] != b {
        lemma_find_in_range(bytes, pos + 1, b);
    }
}

/// A list ends inside the data.
pub proof fn lemma_items_in_range(bytes: Seq<u8>, pos: int, depth: nat)
    ensures
        match items_end(bytes, pos, depth) {
            Some(end) => end <= bytes.len(),
            None => true,
        },
    decreases depth, bytes.len() - pos, 1int,
{
    if 0 <= pos < bytes.len() && bytes[pos] != 101 {
        match value_end(bytes, pos, depth) {
            Some(next) => {
                if pos < next <= bytes.len() {
                    lemma_items_in_range(bytes, next, depth);
                }
            },
            None => {},
        }
    }
}

/// A dictionary ends inside the data.
pub proof fn lemma_entries_in_range(bytes: Seq<u8>, pos: int, depth: nat)
    ensures
        match entries_end(bytes, pos, depth) {
            Some(end) => end <= bytes.len(),
            None => true,
        },
    decreases depth, bytes.len() - pos, 1int,
{
    if 0 <= pos < bytes.len() && bytes[pos] != 101 {
        match string_end(bytes, pos) {
            Some(key_end) => {
                if key_end > pos {
                    match value_end(bytes, key_end, depth) {
                        Some(next) => {
                            if key_end < next <= bytes.len() {
                                lemma_entries_in_range(bytes, next, depth);
                            }
                        },
                        None => {},
                    }
                }
            },
            None => {},
        }
    }
}

/// Whether the data begins with one complete value of bounded nesting.
pub fn is_framed(bytes: &[u8]) -> (ok: bool)
    ensures
        ok == framed(bytes@),
{
    scan_value(bytes, 0, MAX_NESTING).is_some()
}

} // verus!
