//! Byte classes and the elementary scanners that every other layer is built
//! from: runs of one class, closing quotes and closing braces.

use vstd::prelude::*;

verus! {

/// The tab byte.
pub const TAB: u8 = 9;
/// The newline byte.
pub const NEWLINE: u8 = 10;
/// The space byte.
pub const SPACE: u8 = 32;
/// The byte `!`.
pub const BANG: u8 = 33;
/// The byte `"`.
pub const QUOTE: u8 = 34;
/// The byte `'`.
pub const APOSTROPHE: u8 = 39;
/// The byte `*`.
pub const STAR: u8 = 42;
/// The byte `+`.
pub const PLUS: u8 = 43;
/// The byte `-`.
pub const MINUS: u8 = 45;
/// The byte `.`.
pub const DOT: u8 = 46;
/// The byte `/`.
pub const SLASH: u8 = 47;
/// The byte `0`.
pub const DIGIT_0: u8 = 48;
/// The byte `9`.
pub const DIGIT_9: u8 = 57;
/// The byte `:`.
pub const COLON: u8 = 58;
/// The byte `;`.
pub const SEMICOLON: u8 = 59;
/// The byte `?`.
pub const QUESTION: u8 = 63;
/// The byte `@`.
pub const AT: u8 = 64;
/// The byte `A`.
pub const UPPER_A: u8 = 65;
/// The byte `B`.
pub const UPPER_B: u8 = 66;
/// The byte `E`.
pub const UPPER_E: u8 = 69;
/// The byte `F`.
pub const UPPER_F: u8 = 70;
/// The byte `O`.
pub const UPPER_O: u8 = 79;
/// The byte `X`.
pub const UPPER_X: u8 = 88;
/// The byte `Z`.
pub const UPPER_Z: u8 = 90;
/// The byte `[`.
pub const LBRACKET: u8 = 91;
/// The byte `\`.
pub const BACKSLASH: u8 = 92;
/// The byte `]`.
pub const RBRACKET: u8 = 93;
/// The byte `_`.
pub const UNDERSCORE: u8 = 95;
/// The backtick byte.
pub const BACKTICK: u8 = 96;
/// The byte `a`.
pub const LOWER_A: u8 = 97;
/// The byte `b`.
pub const LOWER_B: u8 = 98;
/// The byte `e`.
pub const LOWER_E: u8 = 101;
/// The byte `f`.
pub const LOWER_F: u8 = 102;
/// The byte `i`.
pub const LOWER_I: u8 = 105;
/// The byte `j`.
pub const LOWER_J: u8 = 106;
/// The byte `l`.
pub const LOWER_L: u8 = 108;
/// The byte `n`.
pub const LOWER_N: u8 = 110;
/// The byte `o`.
pub const LOWER_O: u8 = 111;
/// The byte `r`.
pub const LOWER_R: u8 = 114;
/// The byte `s`.
pub const LOWER_S: u8 = 115;
/// The byte `t`.
pub const LOWER_T: u8 = 116;
/// The byte `u`.
pub const LOWER_U: u8 = 117;
/// The byte `w`.
pub const LOWER_W: u8 = 119;
/// The byte `x`.
pub const LOWER_X: u8 = 120;
/// The byte `z`.
pub const LOWER_Z: u8 = 122;
/// The byte `{`.
pub const LBRACE: u8 = 123;
/// The byte `|`.
pub const BAR: u8 = 124;
/// The byte `}`.
pub const RBRACE: u8 = 125;
/// The byte `~`.
pub const TILDE: u8 = 126;

/// A space or a tab.
pub open spec fn is_space(b: u8) -> bool {
    b == SPACE || b == TAB
}

/// A decimal digit.
pub open spec fn is_digit(b: u8) -> bool {
    DIGIT_0 <= b <= DIGIT_9
}

/// An ASCII letter.
pub open spec fn is_letter(b: u8) -> bool {
    (LOWER_A <= b <= LOWER_Z) || (UPPER_A <= b <= UPPER_Z)
}

/// First byte of an identifier: a letter or `_`.
pub open spec fn is_ident_start(b: u8) -> bool {
    is_letter(b) || b == UNDERSCORE
}

/// Any byte of an identifier: a letter, a digit, `-` or `_`.
pub open spec fn is_ident_byte(b: u8) -> bool {
    is_letter(b) || is_digit(b) || b == UNDERSCORE || b == MINUS
}

/// Bytes before which a bare value ends.
pub open spec fn is_value_stop(b: u8) -> bool {
    is_space(b) || b == NEWLINE || b == SEMICOLON || b == BAR
}

/// Bytes a numeric literal may be made of: digits, hexadecimal digits, the
/// radix letters `x`, `o` and `b`, and `.`, `_`, `/`, `r`, `e`, `i`, `j`, `+`, `-`.
pub open spec fn is_numeric_byte(b: u8) -> bool {
    is_digit(b) || (LOWER_A <= b <= LOWER_F) || (UPPER_A <= b <= UPPER_F) || b == LOWER_X || b
        == UPPER_X || b == LOWER_O || b == UPPER_O || b == DOT || b == UNDERSCORE || b == SLASH
        || b == LOWER_R || b == LOWER_I || b == LOWER_J || b == PLUS || b == MINUS
}

/// The classes of bytes that the scanners consume in runs.
#[derive(Clone, Copy, Debug, PartialEq, Eq, Structural)]
pub enum ByteClass {
    /// Spaces and tabs.
    Blank,
    /// Everything but spaces and tabs.
    Solid,
    /// Identifier bytes.
    Ident,
    /// Everything but a newline.
    InLine,
    /// Decimal digits and `_`.
    Digits,
    /// Bytes of a numeric literal.
    Numeric,
}

impl ByteClass {
    /// Whether `b` belongs to the class.
    pub open spec fn has(self, b: u8) -> bool {
        match self {
            ByteClass::Blank => is_space(b),
            ByteClass::Solid => !is_space(b),
            ByteClass::Ident => is_ident_byte(b),
            ByteClass::InLine => b != NEWLINE,
            ByteClass::Digits => is_digit(b) || b == UNDERSCORE,
            ByteClass::Numeric => is_numeric_byte(b),
        }
    }

    /// Decides whether `b` belongs to the class.
    pub fn contains(self, b: u8) -> (r: bool)
        ensures
            r == self.has(b),
    {
        match self {
            ByteClass::Blank => byte_is_space(b),
            ByteClass::Solid => !byte_is_space(b),
            ByteClass::Ident => byte_is_ident(b),
            ByteClass::InLine => b != NEWLINE,
            ByteClass::Digits => byte_is_digit(b) || b == UNDERSCORE,
            ByteClass::Numeric => byte_is_digit(b) || (LOWER_A <= b && b <= LOWER_F) || (UPPER_A
                <= b && b <= UPPER_F) || b == LOWER_X || b == UPPER_X || b == LOWER_O || b
                == UPPER_O || b == DOT || b == UNDERSCORE || b == SLASH || b == LOWER_R || b
                == LOWER_I || b == LOWER_J || b == PLUS || b == MINUS,
        }
    }
}

/// Decides whether `b` is a space or a tab.
pub fn byte_is_space(b: u8) -> (r: bool)
    ensures
        r == is_space(b),
{
    b == SPACE || b == TAB
}

/// Decides whether `b` is a decimal digit.
pub fn byte_is_digit(b: u8) -> (r: bool)
    ensures
        r == is_digit(b),
{
    DIGIT_0 <= b && b <= DIGIT_9
}

/// Decides whether `b` may start an identifier.
pub fn byte_is_ident_start(b: u8) -> (r: bool)
    ensures
        r == is_ident_start(b),
{
    (LOWER_A <= b && b <= LOWER_Z) || (UPPER_A <= b && b <= UPPER_Z) || b == UNDERSCORE
}

/// Decides whether `b` may stand in an identifier.
pub fn byte_is_ident(b: u8) -> (r: bool)
    ensures
        r == is_ident_byte(b),
{
    byte_is_ident_start(b) || byte_is_digit(b) || b == MINUS
}

/// Decides whether a bare value ends before `b`.
pub fn byte_is_value_stop(b: u8) -> (r: bool)
    ensures
        r == is_value_stop(b),
{
    byte_is_space(b) || b == NEWLINE || b == SEMICOLON || b == BAR
}

/// End of the longest run of `class` bytes that starts at `i` and stays
/// below `e`.
pub open spec fn run_end(s: Seq<u8>, i: int, e: int, class: ByteClass) -> int
    decreases e - i,
{
    if 0 <= i < e && i < s.len() && class.has(s[i]) {
        run_end(s, i + 1, e, class)
    } else {
        i
    }
}

/// A run ends inside its window, holds only bytes of its class, and stops at
/// the window's end or before a byte outside the class.
pub proof fn lemma_run_end(s: Seq<u8>, i: int, e: int, class: ByteClass)
    requires
        0 <= i <= e <= s.len(),
    ensures
        i <= run_end(s, i, e, class) <= e,
        forall|k: int| i <= k < run_end(s, i, e, class) ==> class.has(#[trigger] s[k]),
        run_end(s, i, e, class) < e ==> !class.has(s[run_end(s, i, e, class)]),
    decreases e - i,
{
    if i < e && class.has(s[i]) {
        lemma_run_end(s, i + 1, e, class);
    }
}

/// Scans the run of `class` bytes that starts at `i`.
pub fn scan_run(input: &[u8], i: usize, e: usize, class: ByteClass) -> (j: usize)
    requires
        i <= e <= input@.len(),
    ensures
        j == run_end(input@, i as int, e as int, class),
        i <= j <= e,
{
    let mut j: usize = i;
    while j < e && class.contains(input[j])
        invariant
            i <= j <= e <= input@.len(),
            run_end(input@, i as int, e as int, class) == run_end(input@, j as int, e as int, class),
        decreases e - j,
    {
        j = j + 1;
    }
    j
}

/// Whether a bare value ends before `b`: before whitespace, a newline, `;`
/// or `|`, and, inside square brackets, before `]`.
pub open spec fn ends_token(b: u8, bracketed: bool) -> bool {
    is_value_stop(b) || (bracketed && b == RBRACKET)
}

/// End of the bare token that starts at `i`: the offset of the first byte
/// before which a bare value ends, or `e`. A backslash protects the space
/// or tab after it, which then belongs to the token.
pub open spec fn token_end(s: Seq<u8>, i: int, e: int, bracketed: bool) -> int
    decreases e - i,
{
    if 0 <= i < e && i < s.len() {
        if s[i] == BACKSLASH && i + 1 < e && i + 1 < s.len() && is_space(s[i + 1]) {
            token_end(s, i + 2, e, bracketed)
        } else if ends_token(s[i], bracketed) {
            i
        } else {
            token_end(s, i + 1, e, bracketed)
        }
    } else {
        i
    }
}

/// A token ends inside its window, and it is empty only at the window's
/// end or before a byte that ends bare values.
pub proof fn lemma_token_end(s: Seq<u8>, i: int, e: int, bracketed: bool)
    requires
        0 <= i <= e <= s.len(),
    ensures
        i <= token_end(s, i, e, bracketed) <= e,
        token_end(s, i, e, bracketed) == i <==> i == e || ends_token(s[i], bracketed),
    decreases e - i,
{
    if i < e {
        if s[i] == BACKSLASH && i + 1 < e && is_space(s[i + 1]) {
            lemma_token_end(s, i + 2, e, bracketed);
        } else if !ends_token(s[i], bracketed) {
            lemma_token_end(s, i + 1, e, bracketed);
        }
    }
}

/// Scans the bare token that starts at `i`.
pub fn scan_token(input: &[u8], i: usize, e: usize, bracketed: bool) -> (t: usize)
    requires
        i <= e <= input@.len(),
    ensures
        t == token_end(input@, i as int, e as int, bracketed),
        i <= t <= e,
{
    let mut j: usize = i;
    loop
        invariant
            i <= j <= e <= input@.len(),
            token_end(input@, i as int, e as int, bracketed) == token_end(
                input@,
                j as int,
                e as int,
                bracketed,
            ),
        ensures
            j == token_end(input@, i as int, e as int, bracketed),
            i <= j <= e,
        decreases e - j,
    {
        if j >= e {
            break ;
        }
        let b = input[j];
        if b == BACKSLASH && e - j > 1 && byte_is_space(input[j + 1]) {
            j = j + 2;
        } else if byte_is_value_stop(b) || (bracketed && b == RBRACKET) {
            break ;
        } else {
            j = j + 1;
        }
    }
    j
}

/// Position of the `"` that closes a quoted string whose interior starts at
/// `i`, or `e` when there is none. A backslash protects the byte after it.
pub open spec fn quote_close(s: Seq<u8>, i: int, e: int) -> int
    decreases e - i,
{
    if 0 <= i < e && i < s.len() {
        if s[i] == QUOTE {
            i
        } else if s[i] == BACKSLASH {
            if i + 2 <= e {
                quote_close(s, i + 2, e)
            } else {
                e
            }
        } else {
            quote_close(s, i + 1, e)
        }
    } else {
        e
    }
}

/// The closing quote, if there is one, stands inside the window.
pub proof fn lemma_quote_close(s: Seq<u8>, i: int, e: int)
    requires
        0 <= i <= e <= s.len(),
    ensures
        i <= quote_close(s, i, e) <= e,
        quote_close(s, i, e) < e ==> s[quote_close(s, i, e)] == QUOTE,
    decreases e - i,
{
    if i < e && s[i] != QUOTE {
        if s[i] == BACKSLASH {
            if i + 2 <= e {
                lemma_quote_close(s, i + 2, e);
            }
        } else {
            lemma_quote_close(s, i + 1, e);
        }
    }
}

/// Finds the closing quote of a string whose interior starts at `i`.
pub fn find_quote_close(input: &[u8], i: usize, e: usize) -> (c: usize)
    requires
        i <= e <= input@.len(),
    ensures
        c == quote_close(input@, i as int, e as int),
        i <= c <= e,
        c < e ==> input@[c as int] == QUOTE,
{
    let mut j: usize = i;
    loop
        invariant
            i <= j <= e <= input@.len(),
            quote_close(input@, i as int, e as int) == quote_close(input@, j as int, e as int),
        ensures
            j == quote_close(input@, i as int, e as int),
            i <= j <= e,
            j < e ==> input@[j as int] == QUOTE,
        decreases e - j,
    {
        if j >= e {
            break ;
        }
        let b = input[j];
        if b == QUOTE {
            break ;
        }
        if b == BACKSLASH {
            if e - j < 2 {
                assert(quote_close(input@, e as int, e as int) == e);
                j = e;
            } else {
                j = j + 2;
            }
        } else {
            j = j + 1;
        }
    }
    j
}

/// Position of the `}` that closes a brace opened before `i`, or `e` when
/// there is none. `depth` counts the braces opened since; inside a quoted
/// string (`quoted`) braces do not count.
pub open spec fn brace_close(s: Seq<u8>, i: int, e: int, depth: nat, quoted: bool) -> int
    decreases e - i,
{
    if 0 <= i < e && i < s.len() {
        if quoted {
            if s[i] == BACKSLASH {
                if i + 2 <= e {
                    brace_close(s, i + 2, e, depth, true)
                } else {
                    e
                }
            } else {
                brace_close(s, i + 1, e, depth, s[i] != QUOTE)
            }
        } else if s[i] == QUOTE {
            brace_close(s, i + 1, e, depth, true)
        } else if s[i] == LBRACE {
            brace_close(s, i + 1, e, depth + 1, false)
        } else if s[i] == RBRACE {
            if depth == 0 {
                i
            } else {
                brace_close(s, i + 1, e, (depth - 1) as nat, false)
            }
        } else {
            brace_close(s, i + 1, e, depth, false)
        }
    } else {
        e
    }
}

/// The closing brace, if there is one, stands inside the window.
pub proof fn lemma_brace_close(s: Seq<u8>, i: int, e: int, depth: nat, quoted: bool)
    requires
        0 <= i <= e <= s.len(),
    ensures
        i <= brace_close(s, i, e, depth, quoted) <= e,
        brace_close(s, i, e, depth, quoted) < e ==> s[brace_close(s, i, e, depth, quoted)]
            == RBRACE,
    decreases e - i,
{
    if i < e {
        if quoted {
            if s[i] == BACKSLASH {
                if i + 2 <= e {
                    lemma_brace_close(s, i + 2, e, depth, true);
                }
            } else {
                lemma_brace_close(s, i + 1, e, depth, s[i] != QUOTE);
            }
        } else if s[i] == QUOTE {
            lemma_brace_close(s, i + 1, e, depth, true);
        } else if s[i] == LBRACE {
            lemma_brace_close(s, i + 1, e, depth + 1, false);
        } else if s[i] == RBRACE {
            if depth != 0 {
                lemma_brace_close(s, i + 1, e, (depth - 1) as nat, false);
            }
        } else {
            lemma_brace_close(s, i + 1, e, depth, false);
        }
    }
}

/// Finds the `}` that closes a brace opened just before `i`.
pub fn find_brace_close(input: &[u8], i: usize, e: usize) -> (c: usize)
    requires
        i <= e <= input@.len(),
    ensures
        c == brace_close(input@, i as int, e as int, 0, false),
        i <= c <= e,
        c < e ==> input@[c as int] == RBRACE,
{
    let mut j: usize = i;
    let mut depth: usize = 0;
    let mut quoted: bool = false;
    loop
        invariant
            i <= j <= e <= input@.len(),
            depth <= j - i,
            brace_close(input@, i as int, e as int, 0, false) == brace_close(
                input@,
                j as int,
                e as int,
                depth as nat,
                quoted,
            ),
        ensures
            j == brace_close(input@, i as int, e as int, 0, false),
            i <= j <= e,
            j < e ==> input@[j as int] == RBRACE,
        decreases e - j,
    {
        if j >= e {
            break ;
        }
        let b = input[j];
        if quoted {
            if b == BACKSLASH {
                if e - j < 2 {
                    assert(brace_close(input@, e as int, e as int, depth as nat, true) == e);
                    j = e;
                } else {
                    j = j + 2;
                }
            } else {
                quoted = b != QUOTE;
                j = j + 1;
            }
        } else if b == QUOTE {
            quoted = true;
            j = j + 1;
        } else if b == LBRACE {
            depth = depth + 1;
            j = j + 1;
        } else if b == RBRACE {
            if depth == 0 {
                break ;
            }
            depth = depth - 1;
            j = j + 1;
        } else {
            j = j + 1;
        }
    }
    j
}

} // verus!
