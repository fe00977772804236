//! Character-level scanning over strings, and decimal conversions.
//!
//! The request and response grammars are line- and token-oriented; every
//! split the engine performs is phrased here as "the first position at or
//! after `from` satisfying a condition", with a characterization lemma per
//! scan that the executable scanners are proved against.

use vstd::prelude::*;

verus! {

/// Whitespace, as the request grammar sees it: the six ASCII whitespace
/// characters. This is a deliberate narrowing — the exotic Unicode space
/// characters are ordinary characters to every scan defined over this
/// class.
pub open spec fn is_space(c: char) -> bool {
    c == ' ' || c == '\t' || c == '\n' || c == '\r' || c == '\u{b}' || c == '\u{c}'
}

/// Executable test for [`is_space`].
pub fn space_char(c: char) -> (r: bool)
    ensures
        r == is_space(c),
{
    c == ' ' || c == '\t' || c == '\n' || c == '\r' || c == '\u{b}' || c == '\u{c}'
}

/// First occurrence of `c` at or after `from`, or `s.len()` if none.
pub open spec fn find_char(s: Seq<char>, from: int, c: char) -> int
    decreases s.len() - from
        when 0 <= from <= s.len()
{
    if from >= s.len() {
        s.len() as int
    } else if s[from] == c {
        from
    } else {
        find_char(s, from + 1, c)
    }
}

/// What [`find_char`] returns, and that any position with these properties
/// is the result.
pub proof fn lemma_find_char(s: Seq<char>, from: int, c: char)
    requires
        0 <= from <= s.len(),
    ensures
        from <= find_char(s, from, c) <= s.len(),
        find_char(s, from, c) < s.len() ==> s[find_char(s, from, c)] == c,
        forall|k: int| from <= k < find_char(s, from, c) ==> s[k] != c,
    decreases s.len() - from,
{
    if from < s.len() && s[from] != c {
        lemma_find_char(s, from + 1, c);
    }
}

pub proof fn lemma_find_char_is(s: Seq<char>, from: int, c: char, i: int)
    requires
        0 <= from <= i <= s.len(),
        i < s.len() ==> s[i] == c,
        forall|k: int| from <= k < i ==> s[k] != c,
    ensures
        find_char(s, from, c) == i,
    decreases i - from,
{
    if from < i {
        assert(s[from] != c);
        lemma_find_char_is(s, from + 1, c, i);
    }
}

/// First whitespace character at or after `from`, or `s.len()`.
pub open spec fn find_space(s: Seq<char>, from: int) -> int
    decreases s.len() - from
        when 0 <= from <= s.len()
{
    if from >= s.len() {
        s.len() as int
    } else if is_space(s[from]) {
        from
    } else {
        find_space(s, from + 1)
    }
}

/// What [`find_space`] returns.
pub proof fn lemma_find_space(s: Seq<char>, from: int)
    requires
        0 <= from <= s.len(),
    ensures
        from <= find_space(s, from) <= s.len(),
        find_space(s, from) < s.len() ==> is_space(s[find_space(s, from)]),
        forall|k: int| from <= k < find_space(s, from) ==> !is_space(s[k]),
    decreases s.len() - from,
{
    if from < s.len() && !is_space(s[from]) {
        lemma_find_space(s, from + 1);
    }
}

pub proof fn lemma_find_space_is(s: Seq<char>, from: int, i: int)
    requires
        0 <= from <= i <= s.len(),
        i < s.len() ==> is_space(s[i]),
        forall|k: int| from <= k < i ==> !is_space(s[k]),
    ensures
        find_space(s, from) == i,
    decreases i - from,
{
    if from < i {
        assert(!is_space(s[from]));
        lemma_find_space_is(s, from + 1, i);
    }
}

/// First non-whitespace character at or after `from`, or `s.len()`.
pub open spec fn find_non_space(s: Seq<char>, from: int) -> int
    decreases s.len() - from
        when 0 <= from <= s.len()
{
    if from >= s.len() {
        s.len() as int
    } else if !is_space(s[from]) {
        from
    } else {
        find_non_space(s, from + 1)
    }
}

/// What [`find_non_space`] returns.
pub proof fn lemma_find_non_space(s: Seq<char>, from: int)
    requires
        0 <= from <= s.len(),
    ensures
        from <= find_non_space(s, from) <= s.len(),
        find_non_space(s, from) < s.len() ==> !is_space(s[find_non_space(s, from)]),
        forall|k: int| from <= k < find_non_space(s, from) ==> is_space(s[k]),
    decreases s.len() - from,
{
    if from < s.len() && is_space(s[from]) {
        lemma_find_non_space(s, from + 1);
    }
}

pub proof fn lemma_find_non_space_is(s: Seq<char>, from: int, i: int)
    requires
        0 <= from <= i <= s.len(),
        i < s.len() ==> !is_space(s[i]),
        forall|k: int| from <= k < i ==> is_space(s[k]),
    ensures
        find_non_space(s, from) == i,
    decreases i - from,
{
    if from < i {
        assert(is_space(s[from]));
        lemma_find_non_space_is(s, from + 1, i);
    }
}

/// Executable scanner for [`find_char`].
pub fn scan_char(s: &str, from: usize, c: char) -> (r: usize)
    requires
        from <= s@.len(),
    ensures
        r == find_char(s@, from as int, c),
        from <= r <= s@.len(),
        r < s@.len() ==> s@[r as int] == c,
        forall|k: int| from <= k < r ==> s@[k] != c,
{
    let n = s.unicode_len();
    let mut i = from;
    while i < n
        invariant
            from <= i <= n,
            n == s@.len(),
            forall|k: int| from <= k < i ==> s@[k] != c,
        decreases n - i,
    {
        if s.get_char(i) == c {
            proof {
                lemma_find_char_is(s@, from as int, c, i as int);
            }
            return i;
        }
        i += 1;
    }
    proof {
        lemma_find_char_is(s@, from as int, c, n as int);
    }
    n
}

/// Executable scanner for [`find_space`].
pub fn scan_space(s: &str, from: usize) -> (r: usize)
    requires
        from <= s@.len(),
    ensures
        r == find_space(s@, from as int),
        from <= r <= s@.len(),
        r < s@.len() ==> is_space(s@[r as int]),
        forall|k: int| from <= k < r ==> !is_space(s@[k]),
{
    let n = s.unicode_len();
    let mut i = from;
    while i < n
        invariant
            from <= i <= n,
            n == s@.len(),
            forall|k: int| from <= k < i ==> !is_space(s@[k]),
        decreases n - i,
    {
        if space_char(s.get_char(i)) {
            proof {
                lemma_find_space_is(s@, from as int, i as int);
            }
            return i;
        }
        i += 1;
    }
    proof {
        lemma_find_space_is(s@, from as int, n as int);
    }
    n
}

/// Executable scanner for [`find_non_space`].
pub fn scan_non_space(s: &str, from: usize) -> (r: usize)
    requires
        from <= s@.len(),
    ensures
        r == find_non_space(s@, from as int),
        from <= r <= s@.len(),
        r < s@.len() ==> !is_space(s@[r as int]),
        forall|k: int| from <= k < r ==> is_space(s@[k]),
{
    let n = s.unicode_len();
    let mut i = from;
    while i < n
        invariant
            from <= i <= n,
            n == s@.len(),
            forall|k: int| from <= k < i ==> is_space(s@[k]),
        decreases n - i,
    {
        if !space_char(s.get_char(i)) {
            proof {
                lemma_find_non_space_is(s@, from as int, i as int);
            }
            return i;
        }
        i += 1;
    }
    proof {
        lemma_find_non_space_is(s@, from as int, n as int);
    }
    n
}

/// Whether the two-character header separator `": "` sits at position `i`.
pub open spec fn colon_space_at(s: Seq<char>, i: int) -> bool {
    &&& 0 <= i
    &&& i + 1 < s.len()
    &&& s[i] == ':'
    &&& s[i + 1] == ' '
}

/// First position at or after `from` where `": "` occurs, or `s.len()`.
pub open spec fn find_colon_space(s: Seq<char>, from: int) -> int
    decreases s.len() - from
        when 0 <= from
{
    if from + 1 >= s.len() {
        s.len() as int
    } else if s[from] == ':' && s[from + 1] == ' ' {
        from
    } else {
        find_colon_space(s, from + 1)
    }
}

/// What [`find_colon_space`] returns.
pub proof fn lemma_find_colon_space(s: Seq<char>, from: int)
    requires
        0 <= from <= s.len(),
    ensures
        from <= find_colon_space(s, from) <= s.len(),
        find_colon_space(s, from) < s.len() ==> colon_space_at(s, find_colon_space(s, from)),
        forall|k: int| from <= k < find_colon_space(s, from) ==> !colon_space_at(s, k),
    decreases s.len() - from,
{
    if from + 1 < s.len() && !(s[from] == ':' && s[from + 1] == ' ') {
        lemma_find_colon_space(s, from + 1);
        assert(!colon_space_at(s, from));
    } else if from + 1 >= s.len() {
        assert forall|k: int| from <= k < find_colon_space(s, from) implies !colon_space_at(
            s,
            k,
        ) by {
            assert(k + 1 >= s.len());
        }
    }
}

pub proof fn lemma_find_colon_space_is(s: Seq<char>, from: int, i: int)
    requires
        0 <= from <= i <= s.len(),
        i < s.len() ==> colon_space_at(s, i),
        forall|k: int| from <= k < i ==> !colon_space_at(s, k),
    ensures
        find_colon_space(s, from) == i,
    decreases i - from,
{
    if from < i {
        assert(!colon_space_at(s, from));
        lemma_find_colon_space_is(s, from + 1, i);
    }
}

/// Executable scanner for [`find_colon_space`].
pub fn scan_colon_space(s: &str, from: usize) -> (r: usize)
    requires
        from <= s@.len(),
    ensures
        r == find_colon_space(s@, from as int),
        from <= r <= s@.len(),
        r < s@.len() ==> colon_space_at(s@, r as int),
        forall|k: int| from <= k < r ==> !colon_space_at(s@, k),
{
    let n = s.unicode_len();
    let mut i = from;
    while n - i > 1
        invariant
            from <= i <= n,
            n == s@.len(),
            forall|k: int| from <= k < i ==> !colon_space_at(s@, k),
        decreases n - i,
    {
        if s.get_char(i) == ':' && s.get_char(i + 1) == ' ' {
            proof {
                lemma_find_colon_space_is(s@, from as int, i as int);
            }
            return i;
        }
        i += 1;
    }
    proof {
        assert forall|k: int| from <= k < s@.len() implies !colon_space_at(s@, k) by {
            if k < i {
            } else {
                assert(k + 1 >= s@.len());
            }
        }
        lemma_find_colon_space_is(s@, from as int, s@.len() as int);
    }
    n
}

/// The length of `s` once trailing whitespace is removed.
pub open spec fn trimmed_len(s: Seq<char>) -> int
    decreases s.len(),
{
    if s.len() == 0 {
        0
    } else if is_space(s[s.len() - 1]) {
        trimmed_len(s.take(s.len() - 1))
    } else {
        s.len() as int
    }
}

/// What [`trimmed_len`] returns.
pub proof fn lemma_trimmed_len(s: Seq<char>)
    ensures
        0 <= trimmed_len(s) <= s.len(),
        trimmed_len(s) > 0 ==> !is_space(s[trimmed_len(s) - 1]),
        forall|k: int| trimmed_len(s) <= k < s.len() ==> is_space(s[k]),
    decreases s.len(),
{
    if s.len() > 0 && is_space(s[s.len() - 1]) {
        let t = s.take(s.len() - 1);
        lemma_trimmed_len(t);
        assert forall|k: int| trimmed_len(s) <= k < s.len() implies is_space(s[k]) by {
            if k < s.len() - 1 {
                assert(t[k] == s[k]);
            }
        }
        if trimmed_len(s) > 0 {
            assert(t[trimmed_len(t) - 1] == s[trimmed_len(s) - 1]);
        }
    }
}

pub proof fn lemma_trimmed_len_is(s: Seq<char>, i: int)
    requires
        0 <= i <= s.len(),
        i > 0 ==> !is_space(s[i - 1]),
        forall|k: int| i <= k < s.len() ==> is_space(s[k]),
    ensures
        trimmed_len(s) == i,
    decreases s.len(),
{
    if s.len() > 0 && is_space(s[s.len() - 1]) {
        let t = s.take(s.len() - 1);
        assert(i < s.len());
        if i > 0 {
            assert(t[i - 1] == s[i - 1]);
        }
        assert forall|k: int| i <= k < t.len() implies is_space(t[k]) by {
            assert(t[k] == s[k]);
        }
        lemma_trimmed_len_is(t, i);
    }
}

/// Executable counterpart of [`trimmed_len`].
pub fn scan_trimmed_len(s: &str) -> (r: usize)
    ensures
        r == trimmed_len(s@),
{
    let n = s.unicode_len();
    let mut j = n;
    while j > 0
        invariant
            j <= n,
            n == s@.len(),
            forall|k: int| j <= k < n ==> is_space(s@[k]),
        decreases j,
    {
        if !space_char(s.get_char(j - 1)) {
            proof {
                lemma_trimmed_len_is(s@, j as int);
            }
            return j;
        }
        j -= 1;
    }
    proof {
        lemma_trimmed_len_is(s@, 0);
    }
    0
}

/// String equality, decided character by character.
pub fn str_eq(a: &str, b: &str) -> (r: bool)
    ensures
        r == (a@ == b@),
{
    let alen = a.unicode_len();
    let blen = b.unicode_len();
    if alen != blen {
        return false;
    }
    let mut i: usize = 0;
    while i < alen
        invariant
            i <= alen,
            alen == a@.len(),
            alen == b@.len(),
            forall|k: int| 0 <= k < i ==> a@[k] == b@[k],
        decreases alen - i,
    {
        if char_neq(a.get_char(i), b.get_char(i)) {
            return false;
        }
        i += 1;
    }
    proof {
        assert(a@ =~= b@);
    }
    true
}

/// Character inequality (chars compare structurally).
fn char_neq(x: char, y: char) -> (r: bool)
    ensures
        r == (x != y),
{
    x != y
}

/// The length of a text in bytes: the length of its UTF-8 encoding.
pub open spec fn byte_len(s: Seq<char>) -> nat {
    vstd::utf8::encode_utf8(s).len()
}

/// The width in bytes of one character's UTF-8 encoding.
pub fn char_utf8_width(c: char) -> (r: usize)
    ensures
        1 <= r <= 4,
        r as nat == vstd::utf8::encode_scalar(c as u32).len(),
{
    proof {
        vstd::utf8::char_is_scalar(c);
    }
    let v = c as u32;
    if v < 0x80 {
        1
    } else if v < 0x800 {
        2
    } else if v < 0x10000 {
        3
    } else {
        4
    }
}

/// Byte length adds up over concatenation.
pub proof fn lemma_byte_len_concat(a: Seq<char>, b: Seq<char>)
    ensures
        byte_len(a + b) == byte_len(a) + byte_len(b),
    decreases a.len(),
{
    if a.len() == 0 {
        assert(a + b =~= b);
    } else {
        assert((a + b)[0] == a[0]);
        assert((a + b).drop_first() =~= a.drop_first() + b);
        lemma_byte_len_concat(a.drop_first(), b);
    }
}

/// A character takes at least one byte, so only the empty text is
/// byte-less.
pub proof fn lemma_byte_len_zero(s: Seq<char>)
    ensures
        (byte_len(s) == 0) == (s.len() == 0),
{
    if s.len() > 0 {
        assert(vstd::utf8::encode_scalar(s[0] as u32).len() >= 1);
    }
}

/// How many characters at the front of `s` span exactly `n` bytes of its
/// UTF-8 encoding; nothing when the text is too short or `n` falls inside
/// a character.
pub open spec fn chars_spanning(s: Seq<char>, n: nat) -> Option<int>
    decreases s.len(),
{
    if n == 0 {
        Some(0)
    } else if s.len() == 0 {
        None
    } else {
        let w = vstd::utf8::encode_scalar(s[0] as u32).len();
        if w > n {
            None
        } else {
            match chars_spanning(s.drop_first(), (n - w) as nat) {
                None => None,
                Some(k) => Some(k + 1),
            }
        }
    }
}

/// A whole text spans exactly its own byte length.
pub proof fn lemma_chars_spanning_full(s: Seq<char>)
    ensures
        chars_spanning(s, byte_len(s)) == Some(s.len() as int),
    decreases s.len(),
{
    if s.len() > 0 {
        let w = vstd::utf8::encode_scalar(s[0] as u32).len();
        assert(w >= 1);
        assert(byte_len(s) == w + byte_len(s.drop_first()));
        lemma_chars_spanning_full(s.drop_first());
    }
}

/// What a successful span means: `k` characters within the text whose
/// encoding takes exactly `n` bytes.
pub proof fn lemma_chars_spanning_prefix(s: Seq<char>, n: nat, k: int)
    requires
        chars_spanning(s, n) == Some(k),
    ensures
        0 <= k <= s.len(),
        byte_len(s.take(k)) == n,
    decreases s.len(),
{
    if n == 0 {
        assert(s.take(0) =~= Seq::<char>::empty());
    } else {
        let w = vstd::utf8::encode_scalar(s[0] as u32).len();
        lemma_chars_spanning_prefix(s.drop_first(), (n - w) as nat, k - 1);
        assert(s.take(k) =~= seq![s[0]] + s.drop_first().take(k - 1));
        lemma_byte_len_concat(seq![s[0]], s.drop_first().take(k - 1));
        assert(byte_len(seq![s[0]]) == w) by {
            assert(seq![s[0]].drop_first() =~= Seq::<char>::empty());
            assert(vstd::utf8::encode_utf8(seq![s[0]]) =~= vstd::utf8::encode_scalar(
                s[0] as u32,
            ) + vstd::utf8::encode_utf8(Seq::<char>::empty()));
        }
    }
}

/// Counts the characters from `from` that span exactly `n` bytes, if the
/// byte count lands on a character boundary within the text.
pub fn scan_chars_spanning(s: &str, from: usize, n: usize) -> (r: Option<usize>)
    requires
        from <= s@.len(),
    ensures
        match r {
            Some(k) => {
                &&& from + k <= s@.len()
                &&& chars_spanning(s@.skip(from as int), n as nat) == Some(k as int)
            },
            None => chars_spanning(s@.skip(from as int), n as nat) is None,
        },
{
    let len = s.unicode_len();
    let mut i: usize = 0;
    let mut used: usize = 0;
    while used < n
        invariant
            from + i <= len,
            used <= n,
            len == s@.len(),
            chars_spanning(s@.skip(from as int), n as nat) == match chars_spanning(
                s@.skip(from + i),
                (n - used) as nat,
            ) {
                None => None::<int>,
                Some(k) => Some(k + i),
            },
        decreases n - used,
    {
        if from + i >= len {
            return None;
        }
        let w = char_utf8_width(s.get_char(from + i));
        proof {
            assert(s@.skip(from + i)[0] == s@[from + i]);
        }
        if w > n - used {
            return None;
        }
        proof {
            assert(s@.skip(from + i).drop_first() =~= s@.skip(from + i + 1));
        }
        used += w;
        i += 1;
    }
    proof {
        assert(chars_spanning(s@.skip(from + i), 0) == Some(0int));
    }
    Some(i)
}

/// Relies on std's `String::push`: appends exactly the one character.
#[verifier::external_body]
pub fn push_char(s: &mut String, c: char)
    ensures
        final(s)@ == old(s)@.push(c),
{
    s.push(c);
}

/// A decimal digit.
pub open spec fn is_digit(c: char) -> bool {
    48 <= c as int <= 57
}

/// Executable test for [`is_digit`].
pub fn digit_char(c: char) -> (r: bool)
    ensures
        r == is_digit(c),
{
    let v = c as u32;
    48 <= v && v <= 57
}

/// First non-digit character at or after `from`, or `s.len()`.
pub open spec fn find_non_digit(s: Seq<char>, from: int) -> int
    decreases s.len() - from
        when 0 <= from <= s.len()
{
    if from >= s.len() {
        s.len() as int
    } else if !is_digit(s[from]) {
        from
    } else {
        find_non_digit(s, from + 1)
    }
}

proof fn lemma_find_non_digit_is(s: Seq<char>, from: int, i: int)
    requires
        0 <= from <= i <= s.len(),
        i < s.len() ==> !is_digit(s[i]),
        forall|k: int| from <= k < i ==> is_digit(s[k]),
    ensures
        find_non_digit(s, from) == i,
    decreases i - from,
{
    if from < i {
        assert(is_digit(s[from]));
        lemma_find_non_digit_is(s, from + 1, i);
    }
}

/// Executable scanner for [`find_non_digit`].
pub fn scan_non_digit(s: &str, from: usize) -> (r: usize)
    requires
        from <= s@.len(),
    ensures
        r == find_non_digit(s@, from as int),
        from <= r <= s@.len(),
        r < s@.len() ==> !is_digit(s@[r as int]),
        forall|k: int| from <= k < r ==> is_digit(s@[k]),
{
    let n = s.unicode_len();
    let mut i = from;
    while i < n
        invariant
            from <= i <= n,
            n == s@.len(),
            forall|k: int| from <= k < i ==> is_digit(s@[k]),
        decreases n - i,
    {
        if !digit_char(s.get_char(i)) {
            proof {
                lemma_find_non_digit_is(s@, from as int, i as int);
            }
            return i;
        }
        i += 1;
    }
    proof {
        lemma_find_non_digit_is(s@, from as int, n as int);
    }
    n
}

/// The numeric value of a digit character.
pub open spec fn digit_val(c: char) -> nat {
    (c as int - 48) as nat
}

/// Every character of `s` is a decimal digit.
pub open spec fn all_digits(s: Seq<char>) -> bool {
    forall|i: int| 0 <= i < s.len() ==> is_digit(s[i])
}

/// The value of a digit string, most significant first.
pub open spec fn digits_val(s: Seq<char>) -> nat
    decreases s.len(),
{
    if s.len() == 0 {
        0
    } else {
        digits_val(s.take(s.len() - 1)) * 10 + digit_val(s[s.len() - 1])
    }
}

/// A longer digit prefix never has a smaller value.
pub proof fn lemma_digits_val_prefix(s: Seq<char>, i: int)
    requires
        0 <= i <= s.len(),
    ensures
        digits_val(s.take(i)) <= digits_val(s),
    decreases s.len(),
{
    if i < s.len() {
        let t = s.take(s.len() - 1);
        lemma_digits_val_prefix(t, i);
        assert(t.take(i) =~= s.take(i));
        assert(digits_val(t) <= digits_val(t) * 10 + digit_val(s[s.len() - 1]));
    } else {
        assert(s.take(i) =~= s);
    }
}

/// The digits of a decimal literal: everything after an optional leading `+`.
pub open spec fn digits_part(s: Seq<char>) -> Seq<char> {
    if s.len() > 0 && s[0] == '+' {
        s.skip(1)
    } else {
        s
    }
}

/// How `usize` values are read from text: an optional leading `+`, then one
/// or more digits, rejected when the value does not fit.
pub open spec fn parse_usize(s: Seq<char>) -> Option<nat> {
    let d = digits_part(s);
    if d.len() > 0 && all_digits(d) && digits_val(d) <= usize::MAX as nat {
        Some(digits_val(d))
    } else {
        None
    }
}

/// Executable decimal reader for [`parse_usize`].
pub fn parse_usize_str(s: &str) -> (r: Option<usize>)
    ensures
        match r {
            Some(n) => parse_usize(s@) == Some(n as nat),
            None => parse_usize(s@) is None,
        },
{
    let n = s.unicode_len();
    let start: usize = if n > 0 && s.get_char(0) == '+' {
        1
    } else {
        0
    };
    let ghost d = digits_part(s@);
    proof {
        assert(d =~= s@.subrange(start as int, n as int));
    }
    if start >= n {
        return None;
    }
    let mut i = start;
    let mut cur: usize = 0;
    while i < n
        invariant
            start <= i <= n,
            n == s@.len(),
            d == digits_part(s@),
            d =~= s@.subrange(start as int, n as int),
            all_digits(s@.subrange(start as int, i as int)),
            cur as nat == digits_val(s@.subrange(start as int, i as int)),
        decreases n - i,
    {
        let c = s.get_char(i);
        let ghost pre = s@.subrange(start as int, i as int);
        let ghost post = s@.subrange(start as int, i + 1);
        proof {
            assert(post.take(post.len() - 1) =~= pre);
            assert(post[post.len() - 1] == s@[i as int]);
        }
        if !digit_char(c) {
            proof {
                assert(d[i - start] == s@[i as int]);
                assert(!all_digits(d)) by {
                    assert(!is_digit(d[i - start]));
                }
            }
            return None;
        }
        let dv: usize = ((c as u32) - 48) as usize;
        let next = match cur.checked_mul(10) {
            Some(m) => m.checked_add(dv),
            None => None,
        };
        match next {
            Some(v) => {
                cur = v;
            },
            None => {
                proof {
                    assert(digit_val(s@[i as int]) == dv as nat);
                    assert(digits_val(post) == digits_val(pre) * 10 + digit_val(s@[i as int]));
                    assert(cur as nat * 10 + dv as nat > usize::MAX as nat);
                    lemma_digits_val_prefix(d, i + 1 - start as int);
                    assert(d.take(i + 1 - start as int) =~= post);
                    assert(digits_val(d) > usize::MAX as nat);
                }
                return None;
            },
        }
        i += 1;
    }
    proof {
        assert(d =~= s@.subrange(start as int, n as int));
        assert(d.len() > 0);
    }
    Some(cur)
}

/// The digit character for a value below ten.
pub open spec fn digit_char_of(d: nat) -> char {
    if d == 0 {
        '0'
    } else if d == 1 {
        '1'
    } else if d == 2 {
        '2'
    } else if d == 3 {
        '3'
    } else if d == 4 {
        '4'
    } else if d == 5 {
        '5'
    } else if d == 6 {
        '6'
    } else if d == 7 {
        '7'
    } else if d == 8 {
        '8'
    } else {
        '9'
    }
}

/// The decimal rendering of a number, most significant digit first.
pub open spec fn dec_str(n: nat) -> Seq<char>
    decreases n,
{
    if n < 10 {
        seq![digit_char_of(n)]
    } else {
        dec_str(n / 10).push(digit_char_of(n % 10))
    }
}

fn digit_str(d: usize) -> (r: &'static str)
    requires
        d < 10,
    ensures
        r@ =~= seq![digit_char_of(d as nat)],
{
    let r = match d {
        0 => "0",
        1 => "1",
        2 => "2",
        3 => "3",
        4 => "4",
        5 => "5",
        6 => "6",
        7 => "7",
        8 => "8",
        _ => "9",
    };
    proof {
        reveal_strlit("0");
        reveal_strlit("1");
        reveal_strlit("2");
        reveal_strlit("3");
        reveal_strlit("4");
        reveal_strlit("5");
        reveal_strlit("6");
        reveal_strlit("7");
        reveal_strlit("8");
        reveal_strlit("9");
    }
    r
}

/// Renders a length or count in decimal.
pub fn usize_to_string(n: usize) -> (r: String)
    ensures
        r@ == dec_str(n as nat),
    decreases n,
{
    if n < 10 {
        digit_str(n).to_owned()
    } else {
        let mut s = usize_to_string(n / 10);
        s.append(digit_str(n % 10));
        proof {
            assert(s@ =~= dec_str(n as nat));
        }
        s
    }
}

} // verus!
