use vstd::prelude::*;
use vstd::string::*;

verus! {

broadcast use vstd::string::group_string_axioms;

/// Whether the sequence `tag` stands in `s` at position `p`.
pub open spec fn has_tag(s: Seq<char>, p: int, tag: Seq<char>) -> bool {
    0 <= p && p + tag.len() <= s.len() && s.subrange(p, p + tag.len()) == tag
}

/// Whether the character `c` stands in `s` at position `p`.
pub open spec fn has_char(s: Seq<char>, p: int, c: char) -> bool {
    0 <= p < s.len() && s[p] == c
}

/// The text being parsed, kept both as the original string slice (so that
/// slices of it can be handed back to the caller) and as a vector of its
/// characters (so that the parsers can look at any position in constant time).
pub struct Source<'a> {
    text: &'a str,
    chars: Vec<char>,
}

impl<'a> Source<'a> {
    #[verifier::type_invariant]
    spec fn chars_match_text(&self) -> bool {
        &&& self.chars@ == self.text@
        &&& self.chars@.len() <= usize::MAX
    }

    /// The characters of the text.
    pub closed spec fn chars(&self) -> Seq<char> {
        self.chars@
    }

    /// The text this source was made from.
    pub closed spec fn text(&self) -> &'a str {
        self.text
    }

    pub fn new(text: &'a str) -> (src: Source<'a>)
        ensures
            src.text() == text,
            src.chars() == text@,
    {
        let mut chars: Vec<char> = Vec::new();
        for c in iter: text.chars()
            invariant
                chars@ == iter.seq().take(iter.index()),
        {
            chars.push(c);
        }
        assert(chars@ =~= text@);
        // The length is a `usize`, so every position in the text fits in one.
        let _count = chars.len();
        Source { text, chars }
    }

    /// Number of characters in the text.
    pub fn len(&self) -> (n: usize)
        ensures
            n == self.chars().len(),
    {
        self.chars.len()
    }

    /// The character at position `pos`.
    pub fn char_at(&self, pos: usize) -> (c: char)
        requires
            pos < self.chars().len(),
        ensures
            c == self.chars()[pos as int],
    {
        self.chars[pos]
    }

    /// The part of the text from position `pos` (counted in characters) to its end.
    pub fn rest(&self, pos: usize) -> (r: &'a str)
        requires
            pos <= self.chars().len(),
        ensures
            r@ == self.chars().subrange(pos as int, self.chars().len() as int),
    {
        proof {
            use_type_invariant(self);
        }
        self.text.substring_char(pos, self.chars.len())
    }

    /// A new string holding the characters from position `from` up to `to`.
    pub fn string_between(&self, from: usize, to: usize) -> (r: String)
        requires
            from <= to <= self.chars().len(),
        ensures
            r@ == self.chars().subrange(from as int, to as int),
    {
        proof {
            use_type_invariant(self);
        }
        String::from_str(self.text.substring_char(from, to))
    }

    /// Whether the characters of `tag` stand at position `pos`.
    fn has_tag_at(&self, pos: usize, tag: &[char]) -> (b: bool)
        ensures
            b == has_tag(self.chars(), pos as int, tag@),
    {
        let n = self.chars.len();
        if pos > n || tag.len() > n - pos {
            return false;
        }
        let mut i: usize = 0;
        while i < tag.len()
            invariant
                pos + tag@.len() <= n,
                n == self.chars@.len(),
                i <= tag@.len(),
                forall|j: int| 0 <= j < i ==> self.chars@[pos + j] == tag@[j],
            decreases tag@.len() - i,
        {
            if self.chars[pos + i] != tag[i] {
                assert(self.chars@.subrange(pos as int, pos + tag@.len())[i as int] != tag@[i as int]);
                return false;
            }
            i = i + 1;
        }
        assert(self.chars@.subrange(pos as int, pos + tag@.len()) =~= tag@);
        true
    }

    /// The position after the character `c`, if `c` stands at position `pos`.
    pub fn after_char(&self, pos: usize, c: char) -> (r: Option<usize>)
        ensures
            match r {
                Some(q) => has_char(self.chars(), pos as int, c) && q == pos + 1,
                None => !has_char(self.chars(), pos as int, c),
            },
    {
        proof {
            use_type_invariant(self);
        }
        if pos < self.chars.len() && self.chars[pos] == c {
            Some(pos + 1)
        } else {
            None
        }
    }

    /// The position after `tag`, if the characters of `tag` stand at position `pos`.
    pub fn after_tag(&self, pos: usize, tag: &[char]) -> (r: Option<usize>)
        ensures
            match r {
                Some(q) => has_tag(self.chars(), pos as int, tag@) && q == pos + tag@.len(),
                None => !has_tag(self.chars(), pos as int, tag@),
            },
    {
        proof {
            use_type_invariant(self);
        }
        if self.has_tag_at(pos, tag) {
            Some(pos + tag.len())
        } else {
            None
        }
    }
}

} // verus!
