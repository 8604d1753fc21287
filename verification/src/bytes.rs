//! The bytes that the grammar is written in, and how a range of them reads
//! as text.

use vstd::prelude::*;
use vstd::utf8::*;

verus! {

// The ASCII codes of the bytes that the grammar names.
pub const ZERO: u8 = 48;

pub const NINE: u8 = 57;

pub const LOWER_A: u8 = 97;

pub const LOWER_Z: u8 = 122;

pub const UPPER_A: u8 = 65;

pub const UPPER_Z: u8 = 90;

pub const UNDERSCORE: u8 = 95;

pub const SPACE: u8 = 32;

pub const TAB: u8 = 9;

pub const NEWLINE: u8 = 10;

pub const RETURN: u8 = 13;

pub const PLUS: u8 = 43;

pub const MINUS: u8 = 45;

pub const STAR: u8 = 42;

pub const SLASH: u8 = 47;

pub const PERCENT: u8 = 37;

pub const LESS: u8 = 60;

pub const GREATER: u8 = 62;

pub const EQUALS: u8 = 61;

pub const BANG: u8 = 33;

pub const AMPERSAND: u8 = 38;

pub const PIPE: u8 = 124;

pub const CARET: u8 = 94;

pub const TILDE: u8 = 126;

pub const DOT: u8 = 46;

pub const COLON: u8 = 58;

pub const OPEN: u8 = 40;

pub const CLOSE: u8 = 41;

pub open spec fn is_digit(b: u8) -> bool {
    ZERO <= b <= NINE
}

/// A byte that may begin a word: a letter or an underscore.
pub open spec fn is_word_start(b: u8) -> bool {
    LOWER_A <= b <= LOWER_Z || UPPER_A <= b <= UPPER_Z || b == UNDERSCORE
}

/// A byte that may stand inside a word.
pub open spec fn is_word(b: u8) -> bool {
    is_word_start(b) || is_digit(b)
}

pub open spec fn is_space(b: u8) -> bool {
    b == SPACE || b == TAB || b == NEWLINE || b == RETURN
}

/// A byte that an operator symbol is made of.
pub open spec fn is_symbol(b: u8) -> bool {
    b == PLUS || b == MINUS || b == STAR || b == SLASH || b == PERCENT || b == LESS || b == GREATER
        || b == EQUALS || b == BANG || b == AMPERSAND || b == PIPE || b == CARET || b == TILDE
}

/// The classes of bytes that a token or a gap is a run of.
#[derive(Clone, Copy, Debug, PartialEq, Eq, Structural)]
pub enum ByteClass {
    Digit,
    Word,
    Space,
    Symbol,
}

impl ByteClass {
    pub open spec fn holds(self, b: u8) -> bool {
        match self {
            ByteClass::Digit => is_digit(b),
            ByteClass::Word => is_word(b),
            ByteClass::Space => is_space(b),
            ByteClass::Symbol => is_symbol(b),
        }
    }

    /// Tells whether the byte belongs to the class.
    pub fn contains(self, b: u8) -> (r: bool)
        ensures
            r == self.holds(b),
    {
        match self {
            ByteClass::Digit => ZERO <= b && b <= NINE,
            ByteClass::Word => (LOWER_A <= b && b <= LOWER_Z) || (UPPER_A <= b && b <= UPPER_Z) || b == UNDERSCORE || (
            ZERO <= b && b <= NINE),
            ByteClass::Space => b == SPACE || b == TAB || b == NEWLINE || b == RETURN,
            ByteClass::Symbol => b == PLUS || b == MINUS || b == STAR || b == SLASH || b == PERCENT || b
                == LESS || b == GREATER || b == EQUALS || b == BANG || b == AMPERSAND || b == PIPE || b
                == CARET || b == TILDE,
        }
    }
}

/// Tells whether the byte may begin a word.
pub fn begins_word(b: u8) -> (r: bool)
    ensures
        r == is_word_start(b),
{
    (LOWER_A <= b && b <= LOWER_Z) || (UPPER_A <= b && b <= UPPER_Z) || b == UNDERSCORE
}

/// Where the longest run of bytes of one class that begins at `i` ends.
pub open spec fn run_end(s: Seq<u8>, class: ByteClass, i: int) -> int
    decreases s.len() - i,
{
    if 0 <= i < s.len() && class.holds(s[i]) {
        run_end(s, class, i + 1)
    } else {
        i
    }
}

/// Every byte before `n` is an ASCII byte.
pub open spec fn ascii_until(s: Seq<u8>, n: int) -> bool {
    forall|j: int| 0 <= j < n && j < s.len() ==> #[trigger] s[j] < 0x80
}

/// The characters that ASCII bytes stand for, one for one.
pub open spec fn text_of(s: Seq<u8>) -> Seq<char> {
    Seq::new(s.len(), |j: int| s[j] as char)
}

/// A run lies within the input, holds only bytes of its class, and cannot be
/// made longer.
pub proof fn lemma_run_end(s: Seq<u8>, class: ByteClass, i: int)
    requires
        0 <= i <= s.len(),
    ensures
        i <= run_end(s, class, i) <= s.len(),
        forall|j: int| i <= j < run_end(s, class, i) ==> class.holds(#[trigger] s[j]),
        run_end(s, class, i) < s.len() ==> !class.holds(s[run_end(s, class, i)]),
    decreases s.len() - i,
{
    if i < s.len() && class.holds(s[i]) {
        lemma_run_end(s, class, i + 1);
    }
}

/// The end of a run is the one position with these three properties.
pub proof fn lemma_run_end_is(s: Seq<u8>, class: ByteClass, i: int, e: int)
    requires
        0 <= i <= e <= s.len(),
        forall|j: int| i <= j < e ==> class.holds(#[trigger] s[j]),
        e < s.len() ==> !class.holds(s[e]),
    ensures
        run_end(s, class, i) == e,
    decreases e - i,
{
    if i < e {
        lemma_run_end_is(s, class, i + 1, e);
    }
}

/// Every byte of a class is an ASCII byte.
pub proof fn lemma_class_ascii(class: ByteClass, b: u8)
    requires
        class.holds(b),
    ensures
        b < 0x80,
{
}

/// After a run of one class, the input is ASCII as far as it was before the
/// run and through the run.
pub proof fn lemma_run_ascii(s: Seq<u8>, class: ByteClass, i: int)
    requires
        0 <= i <= s.len(),
        ascii_until(s, i),
    ensures
        ascii_until(s, run_end(s, class, i)),
{
    lemma_run_end(s, class, i);
    assert forall|j: int| 0 <= j < run_end(s, class, i) && j < s.len() implies #[trigger] s[j]
        < 0x80 by {
        if j >= i {
            lemma_class_ascii(class, s[j]);
        }
    }
}

/// Finds the end of the run of `class` that begins at `i`.
pub fn scan(bytes: &[u8], class: ByteClass, i: usize) -> (e: usize)
    requires
        i <= bytes@.len(),
    ensures
        e == run_end(bytes@, class, i as int),
        i <= e <= bytes@.len(),
{
    let mut e: usize = i;
    while e < bytes.len() && class.contains(bytes[e])
        invariant
            i <= e <= bytes@.len(),
            run_end(bytes@, class, i as int) == run_end(bytes@, class, e as int),
        decreases bytes@.len() - e,
    {
        e = e + 1;
    }
    e
}

/// ASCII bytes are the encoding of the characters that they stand for.
pub proof fn lemma_text_encoding(s: Seq<u8>)
    requires
        ascii_until(s, s.len() as int),
    ensures
        encode_utf8(text_of(s)) == s,
        is_ascii_chars(text_of(s)),
        valid_utf8(s),
        decode_utf8(s) == text_of(s),
{
    let text = text_of(s);
    assert(is_ascii_chars(text)) by {
        assert forall|j: int| 0 <= j < text.len() implies '\0' <= #[trigger] text[j] <= '\u{7f}' by {
            assert(s[j] < 0x80);
        }
    }
    is_ascii_chars_encode_utf8(text);
    assert(encode_utf8(text) =~= s) by {
        assert forall|j: int| 0 <= j < s.len() implies encode_utf8(text)[j] == s[j] by {
            assert(text[j] as u8 == encode_utf8(text)[j]);
            assert(s[j] < 0x80);
        }
    }
    encode_utf8_valid_utf8(text);
    encode_utf8_decode_utf8(text);
}

/// Where a valid encoding begins with ASCII bytes, every position among
/// them, and the one after them, is the boundary of a character.
pub proof fn lemma_ascii_boundary(s: Seq<u8>, n: int)
    requires
        valid_utf8(s),
        0 <= n <= s.len(),
        ascii_until(s, n),
    ensures
        is_char_boundary(s, n),
    decreases n,
{
    if n > 0 {
        assert(s[0] < 0x80);
        let rest = pop_first_scalar(s);
        assert(rest == s.subrange(1, s.len() as int));
        assert(ascii_until(rest, n - 1)) by {
            assert forall|j: int| 0 <= j < n - 1 && j < rest.len() implies #[trigger] rest[j]
                < 0x80 by {
                assert(rest[j] == s[j + 1]);
            }
        }
        lemma_ascii_boundary(rest, n - 1);
    }
}

} // verus!
