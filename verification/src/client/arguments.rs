//! Reading a command's arguments: whitespace-separated words, the rest of
//! the text, and boolean words.

use vstd::prelude::*;
use vstd::string::StrSliceExecFns;

verus! {

/// Whether `c` is white space: one of the code points with the Unicode
/// `White_Space` property, which `char::is_whitespace` tests.
pub open spec fn whitespace(c: char) -> bool {
    let u = c as u32;
    ||| 0x9 <= u <= 0xD
    ||| u == 0x20
    ||| u == 0x85
    ||| u == 0xA0
    ||| u == 0x1680
    ||| 0x2000 <= u <= 0x200A
    ||| u == 0x2028
    ||| u == 0x2029
    ||| u == 0x202F
    ||| u == 0x205F
    ||| u == 0x3000
}

/// Whether `c` is white space.
pub(crate) fn is_space(c: char) -> (r: bool)
    ensures
        r == whitespace(c),
{
    let u = c as u32;
    (0x9 <= u && u <= 0xD) || u == 0x20 || u == 0x85 || u == 0xA0 || u == 0x1680 || (0x2000 <= u && u
        <= 0x200A) || u == 0x2028 || u == 0x2029 || u == 0x202F || u == 0x205F || u == 0x3000
}

/// The first position at or after `i` that is not white space, or the end.
pub open spec fn skip_space(s: Seq<char>, i: int) -> int
    decreases s.len() - i,
{
    if i >= s.len() || i < 0 {
        s.len() as int
    } else if whitespace(s[i]) {
        skip_space(s, i + 1)
    } else {
        i
    }
}

/// The first position at or after `i` that is white space, or the end.
pub open spec fn word_end(s: Seq<char>, i: int) -> int
    decreases s.len() - i,
{
    if i >= s.len() || i < 0 {
        s.len() as int
    } else if whitespace(s[i]) {
        i
    } else {
        word_end(s, i + 1)
    }
}

/// One past the last position below `j` that is not white space, or `i`
/// when there is none from `i` on.
pub open spec fn trim_end(s: Seq<char>, i: int, j: int) -> int
    decreases j - i,
{
    if j <= i {
        i
    } else if whitespace(s[j - 1]) {
        trim_end(s, i, j - 1)
    } else {
        j
    }
}

/// `c` with an ASCII capital letter made small.
pub open spec fn ascii_lower(c: char) -> char {
    if 'A' <= c <= 'Z' {
        ((c as u32) + 32) as char
    } else {
        c
    }
}

/// Whether `word` is `lit` ignoring the case of ASCII letters, where `lit`
/// is written in small letters.
pub open spec fn same_word(word: Seq<char>, lit: Seq<char>) -> bool {
    word.len() == lit.len() && forall|i: int| 0 <= i < word.len() ==> ascii_lower(#[trigger] word[i]) == lit[i]
}

/// A cursor over a command's argument text, counting in characters.
pub struct Arguments<'a> {
    text: &'a str,
    offset: usize,
}

impl<'a> Arguments<'a> {
    /// The argument text.
    pub closed spec fn text(self) -> Seq<char> {
        self.text@
    }

    /// The current position in the text.
    pub closed spec fn offset(self) -> int {
        self.offset as int
    }

    /// The cursor is within its text.
    pub closed spec fn wf(self) -> bool {
        self.offset <= self.text@.len()
    }

    /// Starts reading `text` from its first character.
    pub fn new(text: &'a str) -> (a: Self)
        ensures
            a.wf(),
            a.text() == text@,
            a.offset() == 0,
    {
        Arguments { text, offset: 0 }
    }

    /// Returns the next whitespace-separated word, or `None`, leaving the
    /// position where it was, when only white space is left.
    pub fn next_word(&mut self) -> (r: Option<&'a str>)
        requires
            old(self).wf(),
        ensures
            final(self).wf(),
            final(self).text() == old(self).text(),
            ({
                let s = old(self).text();
                let j = skip_space(s, old(self).offset());
                &&& j == s.len() ==> r is None && final(self).offset() == old(self).offset()
                &&& j < s.len() ==> (r matches Some(w) && w@ == s.subrange(j, word_end(s, j))) && final(self).offset() == word_end(s, j)
            }),
    {
        let n = self.text.unicode_len();
        let mut j = self.offset;
        while j < n && is_space(self.text.get_char(j))
            invariant
                n == self.text@.len(),
                self.offset <= j <= n,
                skip_space(self.text@, self.offset as int) == skip_space(self.text@, j as int),
            decreases n - j,
        {
            j += 1;
        }
        if j == n {
            return None;
        }
        let mut e = j + 1;
        proof {
            assert(word_end(self.text@, j as int) == word_end(self.text@, j as int + 1));
        }
        while e < n && !is_space(self.text.get_char(e))
            invariant
                n == self.text@.len(),
                j < e <= n,
                word_end(self.text@, j as int) == word_end(self.text@, e as int),
            decreases n - e,
        {
            e += 1;
        }
        let w = self.text.substring_char(j, e);
        self.offset = e;
        Some(w)
    }

    /// Returns the rest of the text without surrounding white space, and
    /// moves to the end.
    pub fn rest(&mut self) -> (r: &'a str)
        requires
            old(self).wf(),
        ensures
            final(self).wf(),
            final(self).text() == old(self).text(),
            final(self).offset() == old(self).text().len(),
            ({
                let s = old(self).text();
                let i = skip_space(s, old(self).offset());
                r@ == s.subrange(i, trim_end(s, i, s.len() as int))
            }),
    {
        let n = self.text.unicode_len();
        let mut i = self.offset;
        while i < n && is_space(self.text.get_char(i))
            invariant
                n == self.text@.len(),
                self.offset <= i <= n,
                skip_space(self.text@, self.offset as int) == skip_space(self.text@, i as int),
            decreases n - i,
        {
            i += 1;
        }
        let mut e = n;
        while e > i && is_space(self.text.get_char(e - 1))
            invariant
                n == self.text@.len(),
                i <= e <= n,
                trim_end(self.text@, i as int, n as int) == trim_end(self.text@, i as int, e as int),
            decreases e,
        {
            e -= 1;
        }
        let r = self.text.substring_char(i, e);
        self.offset = n;
        r
    }

    /// The current position, to go back to it later.
    pub fn save_position(&self) -> (p: usize)
        ensures
            p == self.offset(),
    {
        self.offset
    }

    /// Goes back to a saved position.
    pub fn restore_position(&mut self, p: usize)
        requires
            p <= old(self).text().len(),
        ensures
            final(self).wf(),
            final(self).text() == old(self).text(),
            final(self).offset() == p,
    {
        self.offset = p;
    }
}

/// The rest of a command's text, as one argument.
pub struct Rest(pub String);

/// Whether `word` equals `lit` ignoring ASCII case; `lit` is small letters
/// and digits.
fn same_word_exec(word: &str, lit: &str) -> (r: bool)
    ensures
        r == same_word(word@, lit@),
{
    let n = word.unicode_len();
    if n != lit.unicode_len() {
        return false;
    }
    let mut i: usize = 0;
    while i < n
        invariant
            n == word@.len(),
            n == lit@.len(),
            i <= n,
            forall|k: int| 0 <= k < i ==> ascii_lower(#[trigger] word@[k]) == lit@[k],
        decreases n - i,
    {
        let c = word.get_char(i);
        let l = lit.get_char(i);
        let same = if 'A' <= c && c <= 'Z' { (c as u32) + 32 == l as u32 } else { c == l };
        proof {
            if 'A' <= c <= 'Z' {
                if same {
                    assert(ascii_lower(c) == l) by {
                        assert((((c as u32) + 32) as char) as u32 == (c as u32) + 32);
                    }
                }
            }
        }
        if !same {
            assert(!same_word(word@, lit@)) by {
                assert(ascii_lower(word@[i as int]) != lit@[i as int]) by {
                    if 'A' <= c <= 'Z' {
                        assert((((c as u32) + 32) as char) as u32 == (c as u32) + 32);
                    }
                }
            }
            return false;
        }
        i += 1;
    }
    true
}

/// The boolean a word names, ignoring ASCII case.
pub open spec fn bool_word(w: Seq<char>) -> Option<bool> {
    if same_word(w, "true"@) || same_word(w, "1"@) || same_word(w, "yes"@) || same_word(w, "on"@) {
        Some(true)
    } else if same_word(w, "false"@) || same_word(w, "0"@) || same_word(w, "no"@) || same_word(w, "off"@) {
        Some(false)
    } else {
        None
    }
}

/// Reads a boolean word, ignoring ASCII case: `true`, `1`, `yes` and `on`
/// are true, `false`, `0`, `no` and `off` are false; any other word is
/// `None`.
pub fn parse_bool(word: &str) -> (r: Option<bool>)
    ensures
        r == Some(true) <==> (same_word(word@, "true"@) || same_word(word@, "1"@) || same_word(word@, "yes"@) || same_word(word@, "on"@)),
        r == Some(false) <==> !(same_word(word@, "true"@) || same_word(word@, "1"@) || same_word(word@, "yes"@) || same_word(word@, "on"@))
            && (same_word(word@, "false"@) || same_word(word@, "0"@) || same_word(word@, "no"@) || same_word(word@, "off"@)),
        r == bool_word(word@),
{
    if same_word_exec(word, "true") || same_word_exec(word, "1") || same_word_exec(word, "yes") || same_word_exec(word, "on") {
        Some(true)
    } else if same_word_exec(word, "false") || same_word_exec(word, "0") || same_word_exec(word, "no") || same_word_exec(word, "off") {
        Some(false)
    } else {
        None
    }
}

/// A word starts at a character that is not white space, is not empty, and
/// holds no white space.
pub proof fn law_words_hold_no_space(s: Seq<char>, j: int)
    requires
        0 <= j < s.len(),
        !whitespace(s[j]),
    ensures
        j < word_end(s, j) <= s.len(),
        forall|k: int| j <= k < word_end(s, j) ==> !whitespace(#[trigger] s[k]),
    decreases s.len() - j,
{
    assert(word_end(s, j) == word_end(s, j + 1));
    if j + 1 < s.len() && !whitespace(s[j + 1]) {
        law_words_hold_no_space(s, j + 1);
    } else {
        if j + 1 < s.len() {
            assert(word_end(s, j + 1) == j + 1);
        }
    }
}

/// Whether `c` is an ASCII decimal digit.
pub open spec fn is_digit(c: char) -> bool {
    '0' <= c <= '9'
}

/// The value of a string of decimal digits, most significant first.
pub open spec fn digits_value(s: Seq<char>) -> int
    decreases s.len(),
{
    if s.len() == 0 {
        0
    } else {
        digits_value(s.drop_last()) * 10 + (s.last() as int - '0' as int)
    }
}

/// A non-empty string of decimal digits.
pub open spec fn all_digits(s: Seq<char>) -> bool {
    s.len() > 0 && forall|i: int| 0 <= i < s.len() ==> is_digit(#[trigger] s[i])
}

/// The integer a word writes: an optional sign (`-` only when `signed`)
/// and one or more decimal digits, nothing else.
pub open spec fn int_word(s: Seq<char>, signed: bool) -> Option<int> {
    if s.len() > 0 && s[0] == '-' && signed {
        if all_digits(s.skip(1)) { Some(-digits_value(s.skip(1))) } else { None }
    } else if s.len() > 0 && s[0] == '+' {
        if all_digits(s.skip(1)) { Some(digits_value(s.skip(1))) } else { None }
    } else if all_digits(s) {
        Some(digits_value(s))
    } else {
        None
    }
}

/// The value of the digits of `s` from `start`, or `None` when one is not
/// a digit, there is none, or the value passes `cap`.
fn digits_upto(s: &str, start: usize, cap: u128) -> (r: Option<u128>)
    requires
        start <= s@.len(),
        cap <= u64::MAX as u128 + 1,
    ensures
        r matches Some(v) ==> all_digits(s@.skip(start as int)) && v == digits_value(s@.skip(start as int)) && v <= cap,
        r is None ==> !all_digits(s@.skip(start as int)) || digits_value(s@.skip(start as int)) > cap,
{
    let n = s.unicode_len();
    if start == n {
        return None;
    }
    let mut v: u128 = 0;
    let mut i: usize = start;
    while i < n
        invariant
            n == s@.len(),
            start < n,
            start <= i <= n,
            cap <= u64::MAX as u128 + 1,
            v <= cap,
            forall|k: int| start <= k < i ==> is_digit(#[trigger] s@[k]),
            v == digits_value(s@.subrange(start as int, i as int)),
        decreases n - i,
    {
        let c = s.get_char(i);
        if !('0' <= c && c <= '9') {
            proof {
                assert(s@.skip(start as int)[i - start] == c);
            }
            return None;
        }
        let d = (c as u32 - '0' as u32) as u128;
        let w = v * 10 + d;
        proof {
            let t = s@.subrange(start as int, i as int + 1);
            assert(t.drop_last() =~= s@.subrange(start as int, i as int));
            assert(t.last() == c);
        }
        if w > cap {
            proof {
                lemma_digits_grow(s@.skip(start as int), (i - start + 1) as int);
                assert(s@.skip(start as int).take((i - start + 1) as int) =~= s@.subrange(start as int, i as int + 1));
            }
            return None;
        }
        v = w;
        i += 1;
    }
    proof {
        assert(s@.subrange(start as int, n as int) =~= s@.skip(start as int));
        assert forall|k: int| 0 <= k < s@.skip(start as int).len() implies is_digit(#[trigger] s@.skip(start as int)[k]) by {
            assert(s@.skip(start as int)[k] == s@[start + k]);
        }
    }
    Some(v)
}

/// The value of a digit string is at least that of each prefix.
proof fn lemma_digits_grow(s: Seq<char>, j: int)
    requires
        0 <= j <= s.len(),
        all_digits(s) || forall|i: int| 0 <= i < j ==> is_digit(#[trigger] s[i]),
    ensures
        all_digits(s) ==> digits_value(s) >= digits_value(s.take(j)),
    decreases s.len() - j,
{
    if all_digits(s) && j < s.len() {
        lemma_digits_grow(s, j + 1);
        let t = s.take(j + 1);
        assert(t.drop_last() =~= s.take(j));
        assert(is_digit(s[j]));
        assert(digits_value(s.take(j)) >= 0) by {
            lemma_digits_nonneg(s.take(j));
        }
    } else if all_digits(s) {
        assert(s.take(j) =~= s);
    }
}

/// A digit string has a value of zero or more.
proof fn lemma_digits_nonneg(s: Seq<char>)
    requires
        forall|i: int| 0 <= i < s.len() ==> is_digit(#[trigger] s[i]),
    ensures
        digits_value(s) >= 0,
    decreases s.len(),
{
    if s.len() > 0 {
        lemma_digits_nonneg(s.drop_last());
        assert(is_digit(s[s.len() - 1]));
    }
}

/// Reads a signed integer word as `i64` parsing does: an optional `+` or
/// `-` and decimal digits; anything else, or a value out of range, is
/// `None`.
pub fn parse_i64(word: &str) -> (r: Option<i64>)
    ensures
        r == (match int_word(word@, true) {
            Some(v) => if i64::MIN <= v <= i64::MAX { Some(v as i64) } else { None },
            None => None,
        }),
{
    let n = word.unicode_len();
    if n > 0 && word.get_char(0) == '-' {
        match digits_upto(word, 1, 9_223_372_036_854_775_808) {
            Some(v) => {
                if v == 9_223_372_036_854_775_808 {
                    Some(i64::MIN)
                } else {
                    Some(-(v as i64))
                }
            },
            None => None,
        }
    } else {
        let start: usize = if n > 0 && word.get_char(0) == '+' { 1 } else { 0 };
        proof {
            if start == 0 {
                assert(word@.skip(0) =~= word@);
            }
        }
        match digits_upto(word, start, 9_223_372_036_854_775_807) {
            Some(v) => Some(v as i64),
            None => None,
        }
    }
}

/// Reads an unsigned integer word as `u64` parsing does: an optional `+`
/// and decimal digits; anything else, or a value out of range, is `None`.
pub fn parse_u64(word: &str) -> (r: Option<u64>)
    ensures
        r == (match int_word(word@, false) {
            Some(v) => if v <= u64::MAX { Some(v as u64) } else { None },
            None => None,
        }),
{
    let n = word.unicode_len();
    let start: usize = if n > 0 && word.get_char(0) == '+' { 1 } else { 0 };
    proof {
        if start == 0 {
            assert(word@.skip(0) =~= word@);
        }
    }
    match digits_upto(word, start, 18_446_744_073_709_551_615) {
        Some(v) => Some(v as u64),
        None => None,
    }
}


/// Skipping white space stays within the text.
proof fn lemma_skip_space_le(s: Seq<char>, i: int)
    ensures
        skip_space(s, i) <= s.len(),
    decreases s.len() - i,
{
    if 0 <= i < s.len() && whitespace(s[i]) {
        lemma_skip_space_le(s, i + 1);
    }
}

/// The next word of `s` from `offset`, if there is one.
pub open spec fn next_word_of(s: Seq<char>, offset: int) -> Option<Seq<char>> {
    let j = skip_space(s, offset);
    if j < s.len() {
        Some(s.subrange(j, word_end(s, j)))
    } else {
        None
    }
}

/// The signed integers that fit an `i64`.
pub open spec fn i64_word(w: Seq<char>) -> Option<i64> {
    match int_word(w, true) {
        Some(v) => if i64::MIN <= v <= i64::MAX { Some(v as i64) } else { None },
        None => None,
    }
}

/// The unsigned integers that fit a `u64`.
pub open spec fn u64_word(w: Seq<char>) -> Option<u64> {
    match int_word(w, false) {
        Some(v) => if v <= u64::MAX { Some(v as u64) } else { None },
        None => None,
    }
}

impl<'a> Arguments<'a> {
    /// Reads an optional boolean argument: the next word's value, or
    /// `None` without consuming anything when there is no next word or it
    /// names no boolean.
    pub fn optional_bool(&mut self) -> (r: Option<bool>)
        requires
            old(self).wf(),
        ensures
            final(self).wf(),
            final(self).text() == old(self).text(),
            r == (match next_word_of(old(self).text(), old(self).offset()) {
                Some(w) => bool_word(w),
                None => None,
            }),
            r is None ==> final(self).offset() == old(self).offset(),
            r is Some ==> final(self).offset() == word_end(old(self).text(), skip_space(old(self).text(), old(self).offset())),
    {
        proof {
            lemma_skip_space_le(self.text(), self.offset());
        }
        let saved = self.save_position();
        match self.next_word() {
            Some(w) => match parse_bool(w) {
                Some(v) => Some(v),
                None => {
                    self.restore_position(saved);
                    None
                },
            },
            None => None,
        }
    }

    /// Reads an optional signed integer argument, as `optional_bool` does.
    pub fn optional_i64(&mut self) -> (r: Option<i64>)
        requires
            old(self).wf(),
        ensures
            final(self).wf(),
            final(self).text() == old(self).text(),
            r == (match next_word_of(old(self).text(), old(self).offset()) {
                Some(w) => i64_word(w),
                None => None,
            }),
            r is None ==> final(self).offset() == old(self).offset(),
            r is Some ==> final(self).offset() == word_end(old(self).text(), skip_space(old(self).text(), old(self).offset())),
    {
        proof {
            lemma_skip_space_le(self.text(), self.offset());
        }
        let saved = self.save_position();
        match self.next_word() {
            Some(w) => match parse_i64(w) {
                Some(v) => Some(v),
                None => {
                    self.restore_position(saved);
                    None
                },
            },
            None => None,
        }
    }

    /// Reads an optional unsigned integer argument, as `optional_bool`
    /// does.
    pub fn optional_u64(&mut self) -> (r: Option<u64>)
        requires
            old(self).wf(),
        ensures
            final(self).wf(),
            final(self).text() == old(self).text(),
            r == (match next_word_of(old(self).text(), old(self).offset()) {
                Some(w) => u64_word(w),
                None => None,
            }),
            r is None ==> final(self).offset() == old(self).offset(),
            r is Some ==> final(self).offset() == word_end(old(self).text(), skip_space(old(self).text(), old(self).offset())),
    {
        proof {
            lemma_skip_space_le(self.text(), self.offset());
        }
        let saved = self.save_position();
        match self.next_word() {
            Some(w) => match parse_u64(w) {
                Some(v) => Some(v),
                None => {
                    self.restore_position(saved);
                    None
                },
            },
            None => None,
        }
    }
}

} // verus!
