//! Source text with indexed access to its characters.

use vstd::prelude::*;
use crate::grammar::{
    at, ident_len, is_digit, is_ident_char, is_ident_start, is_space, starts_with,
    ws_len,
};

verus! {

pub fn is_space_char(c: char) -> (r: bool)
    ensures
        r == is_space(c),
{
    let u = c as u32;
    (9 <= u && u <= 13) || u == 32 || u == 0x85 || u == 0xa0 || u == 0x1680 || (0x2000 <= u && u
        <= 0x200a) || u == 0x2028 || u == 0x2029 || u == 0x202f || u == 0x205f || u == 0x3000
}

pub fn is_digit_char(c: char) -> (r: bool)
    ensures
        r == is_digit(c),
{
    let u = c as u32;
    48 <= u && u <= 57
}

pub fn is_ident_start_char(c: char) -> (r: bool)
    ensures
        r == is_ident_start(c),
{
    let u = c as u32;
    (65 <= u && u <= 90) || (97 <= u && u <= 122) || u == 95
}

pub fn is_ident_char_exec(c: char) -> (r: bool)
    ensures
        r == is_ident_char(c),
{
    is_ident_start_char(c) || is_digit_char(c)
}

/// Source text held both as a string and as its characters, for indexed access.
pub struct Source {
    text: String,
    chars: Vec<char>,
}

impl View for Source {
    type V = Seq<char>;

    closed spec fn view(&self) -> Seq<char> {
        self.chars@
    }
}

/// The characters of a source fit in memory, so every position fits in a `usize`.
pub broadcast proof fn lemma_source_len(src: &Source)
    requires
        #[trigger] src.wf(),
    ensures
        src@.len() <= usize::MAX,
{
    assert(src.chars@.len() == src.chars.len());
}

impl Source {
    pub closed spec fn wf(&self) -> bool {
        self.text@ == self.chars@
    }

    pub fn new(text: String) -> (r: Source)
        ensures
            r.wf(),
            r@ == text@,
    {
        let n = text.as_str().unicode_len();
        let mut chars: Vec<char> = Vec::new();
        let mut i: usize = 0;
        while i < n
            invariant
                n == text@.len(),
                i <= n,
                chars@ == text@.subrange(0, i as int),
            decreases n - i,
        {
            chars.push(text.as_str().get_char(i));
            i = i + 1;
        }
        assert(chars@ =~= text@);
        Source { text, chars }
    }

    pub fn len(&self) -> (r: usize)
        requires
            self.wf(),
        ensures
            r == self@.len(),
    {
        self.chars.len()
    }

    /// The character at `i`.
    pub fn get(&self, i: usize) -> (r: char)
        requires
            self.wf(),
            i < self@.len(),
        ensures
            r == self@[i as int],
    {
        self.chars[i]
    }

    /// The character at `i`, if there is one.
    pub fn peek(&self, i: usize) -> (r: Option<char>)
        requires
            self.wf(),
        ensures
            r == (if i < self@.len() {
                Some(self@[i as int])
            } else {
                None::<char>
            }),
    {
        if i < self.chars.len() {
            Some(self.chars[i])
        } else {
            None
        }
    }

    /// Whether `c` stands at `i`.
    pub fn at(&self, i: usize, c: char) -> (r: bool)
        requires
            self.wf(),
        ensures
            r == at(self@, i as int, c),
    {
        i < self.chars.len() && self.chars[i] == c
    }

    /// Whether the characters of `word` stand from `i` on.
    pub fn has_word(&self, i: usize, word: &[char]) -> (r: bool)
        requires
            self.wf(),
        ensures
            r == starts_with(self@, i as int, word@),
    {
        if i > self.chars.len() || word.len() > self.chars.len() - i {
            return false;
        }
        let mut k: usize = 0;
        while k < word.len()
            invariant
                i + word@.len() <= self@.len(),
                i + word.len() <= self.chars.len(),
                k <= word@.len(),
                self.wf(),
                self.chars@.subrange(i as int, i + k) == word@.subrange(0, k as int),
            decreases word.len() - k,
        {
            if self.chars[i + k] != word[k] {
                assert(self@.subrange(i as int, i + word@.len())[k as int] != word@[k as int]);
                return false;
            }
            assert(self.chars@.subrange(i as int, i + k + 1) =~= word@.subrange(0, k + 1));
            k = k + 1;
        }
        assert(word@.subrange(0, word@.len() as int) =~= word@);
        true
    }

    /// The first position at or after `i` that holds no whitespace.
    pub fn skip_ws(&self, i: usize) -> (r: usize)
        requires
            self.wf(),
            i <= self@.len(),
        ensures
            r == i + ws_len(self@, i as int),
            r <= self@.len(),
    {
        let mut k = i;
        while k < self.chars.len() && is_space_char(self.chars[k])
            invariant
                self.wf(),
                i <= k <= self@.len(),
                ws_len(self@, i as int) == (k - i) + ws_len(self@, k as int),
            decreases self@.len() - k,
        {
            k = k + 1;
        }
        k
    }

    /// The end of the run of identifier characters that starts at `i`.
    pub fn ident_end(&self, i: usize) -> (r: usize)
        requires
            self.wf(),
            i <= self@.len(),
        ensures
            r == i + ident_len(self@, i as int),
            r <= self@.len(),
    {
        let mut k = i;
        while k < self.chars.len() && is_ident_char_exec(self.chars[k])
            invariant
                self.wf(),
                i <= k <= self@.len(),
                ident_len(self@, i as int) == (k - i) + ident_len(self@, k as int),
            decreases self@.len() - k,
        {
            k = k + 1;
        }
        k
    }

    /// The text from `from` up to `to`.
    pub fn slice(&self, from: usize, to: usize) -> (r: String)
        requires
            self.wf(),
            from <= to <= self@.len(),
        ensures
            r@ == self@.subrange(from as int, to as int),
    {
        String::from_str(self.text.as_str().substring_char(from, to))
    }
}

} // verus!
