//! The attributes of a fenced code block, as rustdoc reads them.
//!
//! This is the parser for fenced codeblocks attributes. It implements the
//! following eBNF:
//!
//! ```eBNF
//! lang-string = *(token-list / delimited-attribute-list / comment)
//!
//! bareword = LEADINGCHAR *(CHAR)
//! bareword-without-leading-char = CHAR *(CHAR)
//! quoted-string = QUOTE *(NONQUOTE) QUOTE
//! token = bareword / quoted-string
//! token-without-leading-char = bareword-without-leading-char / quoted-string
//! sep = COMMA/WS *(COMMA/WS)
//! attribute = (DOT token)/(token EQUAL token-without-leading-char)
//! attribute-list = [sep] attribute *(sep attribute) [sep]
//! delimited-attribute-list = OPEN-CURLY-BRACKET attribute-list CLOSE-CURLY-BRACKET
//! token-list = [sep] token *(sep token) [sep]
//! comment = OPEN_PAREN *(all characters) CLOSE_PAREN
//!
//! OPEN_PAREN = "("
//! CLOSE_PARENT = ")"
//! OPEN-CURLY-BRACKET = "{"
//! CLOSE-CURLY-BRACKET = "}"
//! LEADINGCHAR = ALPHA | DIGIT | "_" | "-" | ":"
//! ; All ASCII punctuation except comma, quote, equals, backslash, grave (backquote) and braces.
//! ; Comma is used to separate language tokens, so it can't be used in one.
//! ; Quote is used to allow otherwise-disallowed characters in language tokens.
//! ; Equals is used to make key=value pairs in attribute blocks.
//! ; Backslash and grave are special Markdown characters.
//! ; Braces are used to start an attribute block.
//! CHAR = ALPHA | DIGIT | "_" | "-" | ":" | "." | "!" | "#" | "$" | "%" | "&" | "*" | "+" | "/" |
//!        ";" | "<" | ">" | "?" | "@" | "^" | "|" | "~"
//! NONQUOTE = %x09 / %x20 / %x21 / %x23-7E ; TAB / SPACE / all printable characters except `"`
//! COMMA = ","
//! DOT = "."
//! EQUAL = "="
//!
//! ALPHA = %x41-5A / %x61-7A ; A-Z / a-z
//! DIGIT = %x30-39
//! WS = %x09 / " "
//! ```

use vstd::prelude::*;
use vstd::string::*;
use vstd::utf8::*;
use crate::text::{
    byte_len, lemma_ascii_boundary, range_is, range_starts_with, starts_with, substr,
};

verus! {

/// Whether a code block with the attributes `lang` holds Rust, or the
/// errors in the attributes.
pub fn is_rust(lang: &str) -> (result: Result<bool, Vec<String>>)
    ensures
        match result {
            Ok(rust) => !lexed(lang.spec_bytes()).failed && rust == parsed(
                lexed(lang.spec_bytes()).tokens,
            ).rust(),
            Err(errors) => lexed(lang.spec_bytes()).failed && errors@.len() > 0,
        },
{
    let extra = ExtraInfo::new();
    let (parsed, extra) = LangString::parse(lang, extra);
    let errors = extra.into_errors();
    if errors.len() == 0 {
        Ok(parsed.rust)
    } else {
        Err(errors)
    }
}

/// An edition of Rust: `future` or a year.
#[derive(Clone, Copy, PartialEq, Eq, Debug, Structural)]
pub struct Edition;

/// Whether the text is a number that fits into `bits` bits: digits, with a
/// `+` before them or without, whose value is below two to the power of
/// `bits`.
pub open spec fn is_number(text: Seq<u8>, limit: int) -> bool {
    let digits = unsigned(text);
    &&& digits.len() > 0
    &&& all_digits(digits)
    &&& value_of(digits) <= limit
}

/// The text without the `+` at its start, if there is one.
pub open spec fn unsigned(text: Seq<u8>) -> Seq<u8> {
    if text.len() > 0 && text[0] == 43 {
        text.subrange(1, text.len() as int)
    } else {
        text
    }
}

/// Whether each byte of the text is a digit.
pub open spec fn all_digits(digits: Seq<u8>) -> bool {
    forall|i: int| 0 <= i < digits.len() ==> 48 <= #[trigger] digits[i] <= 57
}

/// The value of a run of digits.
pub open spec fn value_of(digits: Seq<u8>) -> int
    decreases digits.len(),
{
    if digits.len() == 0 {
        0
    } else {
        value_of(digits.drop_last()) * 10 + (digits.last() - 48)
    }
}

/// Whether the bytes `start..end` of the text are a number that is not
/// above `limit`.
pub fn parses_as_number(bytes: &[u8], start: usize, end: usize, limit: u64) -> (is: bool)
    requires
        start <= end <= bytes.len(),
        limit <= u32::MAX,
    ensures
        is == is_number(bytes@.subrange(start as int, end as int), limit as int),
{
    let ghost text = bytes@.subrange(start as int, end as int);
    let first = if start < end && bytes[start] == 43 {
        start + 1
    } else {
        start
    };
    let ghost digits = bytes@.subrange(first as int, end as int);
    proof {
        if start < end && bytes@[start as int] == 43 {
            assert(text[0] == 43);
            assert(text.subrange(1, text.len() as int) =~= digits);
        } else {
            if text.len() > 0 {
                assert(text[0] == bytes@[start as int]);
            }
            assert(text =~= digits);
        }
        assert(unsigned(text) == digits);
    }
    if first == end {
        return false;
    }
    let mut value: u64 = 0;
    let mut i: usize = first;
    proof {
        assert(digits.subrange(0, 0) =~= Seq::<u8>::empty());
    }
    while i < end
        invariant
            first <= i <= end <= bytes.len(),
            first < end,
            digits == bytes@.subrange(first as int, end as int),
            unsigned(bytes@.subrange(start as int, end as int)) == digits,
            forall|j: int| 0 <= j < i - first ==> 48 <= #[trigger] digits[j] <= 57,
            value == value_of(digits.subrange(0, i - first)),
            value <= limit <= u32::MAX,
        decreases end - i,
    {
        let byte = bytes[i];
        if byte < 48 || byte > 57 {
            proof {
                assert(digits[i - first] == byte);
            }
            return false;
        }
        let ghost upto = digits.subrange(0, i - first + 1);
        proof {
            assert(upto.drop_last() =~= digits.subrange(0, i - first));
            assert(upto.last() == byte);
        }
        value = value * 10 + (byte - 48) as u64;
        if value > limit {
            proof {
                if all_digits(digits) {
                    lemma_value_grows(digits, i - first + 1);
                }
            }
            return false;
        }
        i += 1;
    }
    proof {
        assert(digits.subrange(0, digits.len() as int) =~= digits);
    }
    true
}

/// More digits do not make a smaller value.
proof fn lemma_value_grows(digits: Seq<u8>, upto: int)
    requires
        0 <= upto <= digits.len(),
        forall|j: int| 0 <= j < digits.len() ==> 48 <= #[trigger] digits[j] <= 57,
    ensures
        value_of(digits.subrange(0, upto)) <= value_of(digits),
        value_of(digits) >= 0,
    decreases digits.len() - upto,
{
    lemma_value_nonnegative(digits.subrange(0, upto));
    if upto == digits.len() {
        assert(digits.subrange(0, upto) =~= digits);
    } else {
        lemma_value_grows(digits, upto + 1);
        let next = digits.subrange(0, upto + 1);
        assert(next.drop_last() =~= digits.subrange(0, upto));
        assert(next.last() == digits[upto]);
    }
}

proof fn lemma_value_nonnegative(digits: Seq<u8>)
    requires
        forall|j: int| 0 <= j < digits.len() ==> 48 <= #[trigger] digits[j] <= 57,
    ensures
        value_of(digits) >= 0,
    decreases digits.len(),
{
    if digits.len() > 0 {
        lemma_value_nonnegative(digits.drop_last());
    }
}

/// Which platforms a code block is not tested on.
#[derive(Debug)]
pub enum Ignore {
    /// On no platform is the code block tested.
    All,
    /// The code block is tested everywhere.
    Nowhere,
    /// The code block is not tested on these platforms.
    Platforms(Vec<String>),
}

/// The attributes of a code block.
#[derive(Debug)]
pub struct LangString {
    pub original: String,
    pub should_panic: bool,
    pub no_run: bool,
    pub ignore: Ignore,
    pub rust: bool,
    pub test_harness: bool,
    pub compile_fail: bool,
    pub standalone_crate: bool,
    pub error_codes: Vec<String>,
    pub edition: Option<Edition>,
    pub added_classes: Vec<String>,
    pub unknown: Vec<String>,
}

/// Collects the errors in the attributes of a code block.
pub struct ExtraInfo {
    pub errors: Vec<String>,
}

impl ExtraInfo {
    /// No errors yet.
    pub fn new() -> (extra: ExtraInfo)
        ensures
            extra.errors@.len() == 0,
    {
        ExtraInfo { errors: Vec::new() }
    }

    /// The errors that were collected.
    pub fn into_errors(self) -> (errors: Vec<String>)
        ensures
            errors == self.errors,
    {
        self.errors
    }

    fn message(&mut self, msg: String)
        ensures
            final(self).errors@ == old(self).errors@.push(msg),
    {
        self.errors.push(msg)
    }

    fn error_invalid_codeblock_attr(&mut self, msg: &str)
        ensures
            final(self).errors@.len() == old(self).errors@.len() + 1,
            final(self).errors@.last()@ == "invalid codeblock attribute: "@ + msg@,
    {
        let mut text = "invalid codeblock attribute: ".to_owned();
        text.append(msg);
        self.message(text);
    }
}

/// A part of the attributes: the bytes `start..end`.
#[derive(Clone, Copy, Debug, PartialEq, Eq, Structural)]
pub struct Indices {
    pub start: usize,
    pub end: usize,
}

/// A token of the attributes.
#[derive(Clone, Copy, Debug, PartialEq, Eq, Structural)]
pub enum LangStringToken {
    LangToken(Indices),
    ClassAttribute(Indices),
    KeyValueAttribute(Indices, Indices),
}

/// A token of the attributes, with its text.
pub enum Token {
    LangToken(Seq<u8>),
    ClassAttribute(Seq<u8>),
    KeyValueAttribute(Seq<u8>, Seq<u8>),
}

/// The part lies in the text and cuts no character in two.
pub open spec fn part_of(bytes: Seq<u8>, part: Indices) -> bool {
    &&& part.start <= part.end <= bytes.len()
    &&& is_char_boundary(bytes, part.start as int)
    &&& is_char_boundary(bytes, part.end as int)
}

impl LangStringToken {
    /// The parts of the token lie in the text.
    pub open spec fn wf(self, bytes: Seq<u8>) -> bool {
        match self {
            LangStringToken::LangToken(part) => part_of(bytes, part),
            LangStringToken::ClassAttribute(part) => part_of(bytes, part),
            LangStringToken::KeyValueAttribute(key, value) => part_of(bytes, key) && part_of(
                bytes,
                value,
            ),
        }
    }

    /// The token with its text.
    pub open spec fn text(self, bytes: Seq<u8>) -> Token {
        match self {
            LangStringToken::LangToken(part) => Token::LangToken(
                bytes.subrange(part.start as int, part.end as int),
            ),
            LangStringToken::ClassAttribute(part) => Token::ClassAttribute(
                bytes.subrange(part.start as int, part.end as int),
            ),
            LangStringToken::KeyValueAttribute(key, value) => Token::KeyValueAttribute(
                bytes.subrange(key.start as int, key.end as int),
                bytes.subrange(value.start as int, value.end as int),
            ),
        }
    }
}

/// Whether a bare word may begin with the byte.
pub fn is_leading_char(c: u8) -> (is: bool)
    ensures
        is == leading_char(c),
{
    c == 95 || c == 45 || c == 58 || (65 <= c && c <= 90) || (97 <= c && c <= 122) || (48 <= c
        && c <= 57)
}

/// `_`, `-`, `:`, a letter or a digit.
pub open spec fn leading_char(c: u8) -> bool {
    c == 95 || c == 45 || c == 58 || (65 <= c <= 90) || (97 <= c <= 122) || (48 <= c <= 57)
}

/// Whether a bare word may hold the byte.
pub fn is_bareword_char(c: u8) -> (is: bool)
    ensures
        is == bareword_char(c),
{
    is_leading_char(c) || c == 46 || c == 33 || c == 35 || c == 36 || c == 37 || c == 38 || c
        == 42 || c == 43 || c == 47 || c == 59 || c == 60 || c == 62 || c == 63 || c == 64 || c
        == 94 || c == 124 || c == 126
}

/// A leading character or one of `.!#$%&*+/;<>?@^|~`.
pub open spec fn bareword_char(c: u8) -> bool {
    leading_char(c) || c == 46 || c == 33 || c == 35 || c == 36 || c == 37 || c == 38 || c == 42
        || c == 43 || c == 47 || c == 59 || c == 60 || c == 62 || c == 63 || c == 64 || c == 94
        || c == 124 || c == 126
}

/// Whether the byte stands between tokens.
pub fn is_separator(c: u8) -> (is: bool)
    ensures
        is == separator(c),
{
    c == 32 || c == 44 || c == 9
}

/// A space, a comma or a tab: what stands between tokens.
pub open spec fn separator(c: u8) -> bool {
    c == 32 || c == 44 || c == 9
}

/// The first offset from `from` on that holds no separator; the end of the
/// text if there is none.
pub open spec fn separators_end(bytes: Seq<u8>, from: int) -> int
    decreases bytes.len() - from,
{
    if from < 0 || from >= bytes.len() {
        bytes.len() as int
    } else if separator(bytes[from]) {
        separators_end(bytes, from + 1)
    } else {
        from
    }
}

/// The first offset from `from` on that holds no character of a bare word;
/// the end of the text if there is none.
pub open spec fn bareword_end(bytes: Seq<u8>, from: int) -> int
    decreases bytes.len() - from,
{
    if from < 0 || from >= bytes.len() {
        bytes.len() as int
    } else if bareword_char(bytes[from]) {
        bareword_end(bytes, from + 1)
    } else {
        from
    }
}

/// The first offset from `from` on that holds `byte`; the end of the text
/// if there is none.
pub open spec fn find_byte(bytes: Seq<u8>, from: int, byte: u8) -> int
    decreases bytes.len() - from,
{
    if from < 0 || from >= bytes.len() {
        bytes.len() as int
    } else if bytes[from] == byte {
        from
    } else {
        find_byte(bytes, from + 1, byte)
    }
}

/// What may stand after a token in an attribute block: nothing, `}`, a
/// separator or `(`.
pub open spec fn after_token_ok(bytes: Seq<u8>, at: int) -> bool {
    at >= bytes.len() || bytes[at] == 125 || separator(bytes[at]) || bytes[at] == 40
}

/// What one step through the attributes gives: a token, or nothing yet, each
/// with where to go on and whether that is inside an attribute block; or an
/// error.
pub enum Stepped {
    Token { token: Token, pos: int, in_block: bool },
    Again { pos: int, in_block: bool },
    Failed,
}

/// The class that starts at `from`, after its `.`: a bare word that is not
/// empty, with nothing wrong after it.
pub open spec fn class_step(bytes: Seq<u8>, from: int) -> Stepped {
    let end = bareword_end(bytes, from);
    if end == from || !after_token_ok(bytes, end) {
        Stepped::Failed
    } else {
        Stepped::Token { token: Token::ClassAttribute(bytes.subrange(from, end)), pos: end, in_block: true }
    }
}

/// The value of a key, which starts at `at`, after the `=`: a string in
/// double quotes that is not empty, or a bare word before the end of the
/// text, with nothing wrong after it.
pub open spec fn value_step(bytes: Seq<u8>, key: Seq<u8>, at: int) -> Stepped {
    if at >= bytes.len() {
        Stepped::Failed
    } else if bytes[at] == 34 {
        let close = find_byte(bytes, at + 1, 34);
        if close >= bytes.len() || close == at + 1 || !after_token_ok(bytes, close + 1) {
            Stepped::Failed
        } else {
            Stepped::Token {
                token: Token::KeyValueAttribute(key, bytes.subrange(at + 1, close)),
                pos: close + 1,
                in_block: true,
            }
        }
    } else if bareword_char(bytes[at]) {
        let end = bareword_end(bytes, at + 1);
        if end >= bytes.len() || !after_token_ok(bytes, end) {
            Stepped::Failed
        } else {
            Stepped::Token {
                token: Token::KeyValueAttribute(key, bytes.subrange(at, end)),
                pos: end,
                in_block: true,
            }
        }
    } else {
        Stepped::Failed
    }
}

/// The key with its value that starts at `start`: the key is a string in
/// double quotes or a bare word, not empty, then comes `=`, then the value.
pub open spec fn key_value_step(bytes: Seq<u8>, start: int) -> Stepped {
    let quoted = bytes[start] == 34;
    let key_start = if quoted {
        start + 1
    } else {
        start
    };
    let key_end = if quoted {
        find_byte(bytes, start + 1, 34)
    } else {
        bareword_end(bytes, start + 1)
    };
    let equals = if quoted {
        key_end + 1
    } else {
        key_end
    };
    if key_end >= bytes.len() || key_start == key_end || equals >= bytes.len() || bytes[equals]
        != 61 {
        Stepped::Failed
    } else {
        value_step(bytes, bytes.subrange(key_start, key_end), equals + 1)
    }
}

/// The step at `pos` inside an attribute block: `}` ends the block, `.`
/// begins a class, `"` or a leading character begins a key with its value.
pub open spec fn in_block_step(bytes: Seq<u8>, pos: int) -> Stepped {
    let c = bytes[pos];
    if c == 125 {
        Stepped::Again { pos: pos + 1, in_block: false }
    } else if c == 46 {
        class_step(bytes, pos + 1)
    } else if c == 34 || leading_char(c) {
        key_value_step(bytes, pos)
    } else {
        Stepped::Failed
    }
}

/// The step outside an attribute block that began at `start` and has
/// come to `at`: a bare word, which a separator, a comment in parentheses or
/// the end of the text ends; a string in double quotes; or `{`, which begins
/// an attribute block.
pub open spec fn outside_step(bytes: Seq<u8>, start: int, at: int) -> Stepped
    decreases bytes.len() - at,
{
    if at < 0 || at >= bytes.len() {
        Stepped::Token {
            token: Token::LangToken(bytes.subrange(start, bytes.len() as int)),
            pos: bytes.len() as int,
            in_block: false,
        }
    } else {
        let c = bytes[at];
        if c == 34 {
            let close = find_byte(bytes, at + 1, 34);
            if at != start || close >= bytes.len() || (close + 1 < bytes.len() && !(bytes[close
                + 1] == 123 || separator(bytes[close + 1]) || bytes[close + 1] == 40)) {
                Stepped::Failed
            } else {
                Stepped::Token {
                    token: Token::LangToken(bytes.subrange(at + 1, close)),
                    pos: close + 1,
                    in_block: false,
                }
            }
        } else if c == 123 {
            Stepped::Again { pos: at + 1, in_block: true }
        } else if separator(c) {
            if at != start {
                Stepped::Token {
                    token: Token::LangToken(bytes.subrange(start, at)),
                    pos: at + 1,
                    in_block: false,
                }
            } else {
                Stepped::Again { pos: at + 1, in_block: false }
            }
        } else if c == 40 {
            let close = find_byte(bytes, at + 1, 41);
            if close >= bytes.len() {
                Stepped::Failed
            } else if at != start {
                Stepped::Token {
                    token: Token::LangToken(bytes.subrange(start, at)),
                    pos: close + 1,
                    in_block: false,
                }
            } else {
                Stepped::Again { pos: close + 1, in_block: false }
            }
        } else if (at == start && leading_char(c)) || (at != start && bareword_char(c)) {
            outside_step(bytes, start, at + 1)
        } else {
            Stepped::Failed
        }
    }
}

/// The step at `pos`, which holds no separator.
pub open spec fn step_at(bytes: Seq<u8>, pos: int, in_block: bool) -> Stepped {
    if in_block {
        in_block_step(bytes, pos)
    } else {
        outside_step(bytes, pos, pos)
    }
}

/// The tokens of attributes, and whether the attributes are in error.
pub struct Lexed {
    pub tokens: Seq<Token>,
    pub failed: bool,
}

/// The tokens of the attributes from `pos` on, up to the first error.
/// An attribute block that the end of the text leaves open is an error.
pub open spec fn lexed_from(bytes: Seq<u8>, pos: int, in_block: bool) -> Lexed
    decreases bytes.len() - pos,
{
    let start = separators_end(bytes, pos);
    if pos < 0 || pos >= bytes.len() || start >= bytes.len() {
        Lexed { tokens: Seq::empty(), failed: in_block }
    } else {
        match step_at(bytes, start, in_block) {
            Stepped::Token { token, pos: next, in_block } => {
                if next <= pos || next > bytes.len() {
                    Lexed { tokens: Seq::empty(), failed: true }
                } else {
                    let rest = lexed_from(bytes, next, in_block);
                    Lexed { tokens: seq![token] + rest.tokens, failed: rest.failed }
                }
            },
            Stepped::Again { pos: next, in_block } => {
                if next <= pos || next > bytes.len() {
                    Lexed { tokens: Seq::empty(), failed: true }
                } else {
                    lexed_from(bytes, next, in_block)
                }
            },
            Stepped::Failed => Lexed { tokens: Seq::empty(), failed: true },
        }
    }
}

/// The tokens of attributes, and whether the attributes are in error.
pub open spec fn lexed(bytes: Seq<u8>) -> Lexed {
    lexed_from(bytes, 0, false)
}

/// What a step of the iterator gives.
pub enum Step {
    /// A token.
    Token(LangStringToken),
    /// Nothing yet: go on.
    Again,
    /// Nothing more.
    End,
}

/// Goes through the attributes token by token.
pub struct TagIterator<'a> {
    pub data: &'a str,
    /// Where the next character starts.
    pub pos: usize,
    pub is_in_attribute_block: bool,
    pub extra: ExtraInfo,
    pub is_error: bool,
    /// How many errors `extra` held when the iterator was made.
    pub earlier: Ghost<nat>,
}

impl<'a> TagIterator<'a> {
    /// The iterator stands at a character of its text or at the end, and it
    /// has failed exactly if it has collected an error of its own.
    pub open spec fn inv(&self) -> bool {
        &&& self.pos <= self.data.spec_bytes().len()
        &&& is_char_boundary(self.data.spec_bytes(), self.pos as int)
        &&& self.earlier@ <= self.extra.errors@.len()
        &&& self.is_error <==> self.extra.errors@.len() > self.earlier@
    }

    /// `self` continues `before`: the same text, not before where `before`
    /// stood.
    pub open spec fn follows(&self, before: &Self) -> bool {
        &&& self.inv()
        &&& self.data == before.data
        &&& self.earlier == before.earlier
        &&& before.pos <= self.pos
        &&& before.is_error ==> self.is_error
    }

    /// An iterator at the start of the attributes.
    pub fn new(data: &'a str, extra: ExtraInfo) -> (iter: Self)
        ensures
            iter.inv(),
            iter.data == data,
            iter.extra == extra,
            iter.earlier@ == extra.errors@.len(),
            iter.pos == 0,
            !iter.is_error,
            !iter.is_in_attribute_block,
    {
        proof {
            encode_utf8_valid_utf8(data@);
            is_char_boundary_start_end_of_seq(data.spec_bytes());
        }
        let ghost earlier = extra.errors@.len();
        TagIterator {
            data,
            pos: 0,
            is_in_attribute_block: false,
            extra,
            is_error: false,
            earlier: Ghost(earlier),
        }
    }

    fn emit_error(&mut self, err: &str)
        requires
            old(self).inv(),
        ensures
            final(self).follows(old(self)),
            final(self).pos == old(self).pos,
            final(self).is_in_attribute_block == old(self).is_in_attribute_block,
            final(self).is_error,
    {
        self.extra.error_invalid_codeblock_attr(err);
        self.is_error = true;
    }

    /// Emits an error that names the character at `at`: `before`, the
    /// character and `after`.
    fn emit_error_at(&mut self, before: &str, at: usize, after: &str)
        requires
            old(self).inv(),
        ensures
            final(self).follows(old(self)),
            final(self).pos == old(self).pos,
            final(self).is_in_attribute_block == old(self).is_in_attribute_block,
            final(self).is_error,
    {
        let mut text = before.to_owned();
        if at < byte_len(self.data) {
            let end = self.after(at);
            match substr(self.data, at, end) {
                Some(c) => {
                    text.append(c);
                },
                None => {},
            }
        }
        text.append(after);
        self.emit_error(text.as_str());
    }

    /// Where the character that starts at `at` ends.
    fn after(&self, at: usize) -> (end: usize)
        requires
            at < self.data.spec_bytes().len(),
        ensures
            at < end <= self.data.spec_bytes().len(),
            is_char_boundary(self.data.spec_bytes(), end as int),
            self.data.spec_bytes()[at as int] < 128 ==> end == at + 1,
            forall|j: int| at < j < end ==> self.data.spec_bytes()[j] >= 128,
    {
        let len = byte_len(self.data);
        let ghost bytes = self.data.spec_bytes();
        proof {
            encode_utf8_valid_utf8(self.data@);
            is_char_boundary_start_end_of_seq(bytes);
            if bytes[at as int] < 128 {
                lemma_ascii_boundary(bytes, at as int);
            }
        }
        let mut end: usize = at + 1;
        while end < len && !self.data.is_char_boundary(end)
            invariant
                at < end <= len,
                len == self.data.spec_bytes().len(),
                bytes == self.data.spec_bytes(),
                valid_utf8(bytes),
                forall|j: int| at < j < end ==> bytes[j] >= 128,
                bytes[at as int] < 128 ==> is_char_boundary(bytes, at + 1) && end == at + 1,
            decreases len - end,
        {
            proof {
                is_char_boundary_iff_not_is_continuation_byte(bytes, end as int);
            }
            end += 1;
        }
        end
    }

    /// The character that comes next, as where it starts and its first
    /// byte.
    fn peek(&self) -> (next: Option<(usize, u8)>)
        requires
            self.inv(),
        ensures
            match next {
                Some((pos, c)) => pos == self.pos && pos < self.data.spec_bytes().len() && c
                    == self.data.spec_bytes()[pos as int],
                None => self.pos == self.data.spec_bytes().len(),
            },
    {
        let bytes = self.data.as_bytes();
        if self.pos < bytes.len() {
            Some((self.pos, bytes[self.pos]))
        } else {
            None
        }
    }

    /// Takes the character that comes next.
    fn advance(&mut self) -> (next: Option<(usize, u8)>)
        requires
            old(self).inv(),
        ensures
            final(self).follows(old(self)),
            final(self).is_in_attribute_block == old(self).is_in_attribute_block,
            final(self).is_error == old(self).is_error,
            final(self).extra == old(self).extra,
            match next {
                Some((pos, c)) => {
                    &&& pos == old(self).pos
                    &&& pos < final(self).pos
                    &&& c == old(self).data.spec_bytes()[pos as int]
                    &&& c < 128 ==> final(self).pos == pos + 1
                    &&& forall|j: int|
                        pos < j < final(self).pos ==> old(self).data.spec_bytes()[j] >= 128
                },
                None => final(self).pos == old(self).pos && old(self).pos
                    == old(self).data.spec_bytes().len(),
            },
    {
        match self.peek() {
            Some((pos, c)) => {
                self.pos = self.after(pos);
                Some((pos, c))
            },
            None => None,
        }
    }

    fn skip_separators(&mut self) -> (start: Option<usize>)
        requires
            old(self).inv(),
        ensures
            final(self).follows(old(self)),
            final(self).is_in_attribute_block == old(self).is_in_attribute_block,
            final(self).is_error == old(self).is_error,
            final(self).pos == separators_end(old(self).data.spec_bytes(), old(self).pos as int),
            match start {
                Some(pos) => pos == final(self).pos && pos < old(self).data.spec_bytes().len(),
                None => final(self).pos == old(self).data.spec_bytes().len(),
            },
    {
        loop
            invariant
                self.follows(old(self)),
                self.is_in_attribute_block == old(self).is_in_attribute_block,
                self.is_error == old(self).is_error,
                separators_end(self.data.spec_bytes(), self.pos as int) == separators_end(
                    old(self).data.spec_bytes(),
                    old(self).pos as int,
                ),
            decreases self.data.spec_bytes().len() - self.pos,
        {
            match self.peek() {
                Some((pos, c)) => {
                    if !is_separator(c) {
                        return Some(pos);
                    }
                    self.advance();
                },
                None => {
                    return None;
                },
            }
        }
    }

    /// Reads a quoted string up to its closing quote; `from` is where the
    /// string starts, after its opening quote.
    fn parse_string(&mut self, from: usize) -> (indices: Option<Indices>)
        requires
            old(self).inv(),
            from == old(self).pos,
        ensures
            final(self).follows(old(self)),
            final(self).is_in_attribute_block == old(self).is_in_attribute_block,
            indices is None ==> final(self).is_error,
            indices is Some ==> final(self).is_error == old(self).is_error,
            match indices {
                Some(part) => {
                    &&& part_of(old(self).data.spec_bytes(), part)
                    &&& part.start == from
                    &&& part.end == find_byte(old(self).data.spec_bytes(), from as int, 34)
                    &&& part.end < old(self).data.spec_bytes().len()
                    &&& final(self).pos == part.end + 1
                },
                None => find_byte(old(self).data.spec_bytes(), from as int, 34) >= old(
                    self,
                ).data.spec_bytes().len(),
            },
    {
        loop
            invariant
                self.follows(old(self)),
                self.is_in_attribute_block == old(self).is_in_attribute_block,
                self.is_error == old(self).is_error,
                from == old(self).pos,
                from <= self.pos,
                is_char_boundary(self.data.spec_bytes(), from as int),
                find_byte(self.data.spec_bytes(), self.pos as int, 34) == find_byte(
                    self.data.spec_bytes(),
                    from as int,
                    34,
                ),
            decreases self.data.spec_bytes().len() - self.pos,
        {
            let ghost before = self.pos;
            match self.advance() {
                Some((pos, c)) => {
                    if c == 34 {
                        return Some(Indices { start: from, end: pos });
                    }
                    proof {
                        lemma_find_skip(self.data.spec_bytes(), before as int, self.pos as int, 34);
                    }
                },
                None => {
                    self.emit_error("unclosed quote string `\"`");
                    return None;
                },
            }
        }
    }

    /// Reads the class after a `.`; `from` is where the class starts,
    /// after the `.`.
    fn parse_class(&mut self, from: usize) -> (token: Option<LangStringToken>)
        requires
            old(self).inv(),
            from == old(self).pos,
        ensures
            final(self).follows(old(self)),
            final(self).is_in_attribute_block == old(self).is_in_attribute_block,
            token is None ==> final(self).is_error,
            token is Some ==> final(self).is_error == old(self).is_error,
            token matches Some(token) ==> token.wf(old(self).data.spec_bytes()),
            match class_step(old(self).data.spec_bytes(), from as int) {
                Stepped::Token { token: text, pos, .. } => token matches Some(found) && found.text(
                    old(self).data.spec_bytes(),
                ) == text && final(self).pos == pos,
                _ => token is None,
            },
    {
        loop
            invariant
                self.follows(old(self)),
                self.is_in_attribute_block == old(self).is_in_attribute_block,
                self.is_error == old(self).is_error,
                from == old(self).pos,
                from <= self.pos,
                is_char_boundary(self.data.spec_bytes(), from as int),
                bareword_end(self.data.spec_bytes(), self.pos as int) == bareword_end(
                    self.data.spec_bytes(),
                    from as int,
                ),
            decreases self.data.spec_bytes().len() - self.pos,
        {
            match self.peek() {
                Some((pos, c)) => {
                    if is_bareword_char(c) {
                        self.advance();
                    } else {
                        if from == pos {
                            self.emit_error_at("unexpected `", pos, "` character after `.`");
                            return None;
                        } else if self.check_after_token() {
                            return Some(
                                LangStringToken::ClassAttribute(Indices { start: from, end: pos }),
                            );
                        } else {
                            return None;
                        }
                    }
                },
                None => {
                    let end = byte_len(self.data);
                    if from == end {
                        self.emit_error("missing character after `.`");
                        return None;
                    } else if self.check_after_token() {
                        return Some(LangStringToken::ClassAttribute(Indices { start: from, end }));
                    } else {
                        return None;
                    }
                },
            }
        }
    }

    /// Reads a bare word up to the character that ends it; the word starts
    /// at `start`.
    fn parse_token(&mut self, start: usize) -> (indices: Option<Indices>)
        requires
            old(self).inv(),
            start <= old(self).pos,
            is_char_boundary(old(self).data.spec_bytes(), start as int),
        ensures
            final(self).follows(old(self)),
            final(self).is_in_attribute_block == old(self).is_in_attribute_block,
            indices is None ==> final(self).is_error,
            indices is Some ==> final(self).is_error == old(self).is_error,
            match indices {
                Some(part) => {
                    &&& part_of(old(self).data.spec_bytes(), part)
                    &&& part.start == start
                    &&& part.end == final(self).pos
                    &&& part.end == bareword_end(
                        old(self).data.spec_bytes(),
                        old(self).pos as int,
                    )
                    &&& part.end < old(self).data.spec_bytes().len()
                },
                None => bareword_end(old(self).data.spec_bytes(), old(self).pos as int) >= old(
                    self,
                ).data.spec_bytes().len(),
            },
    {
        loop
            invariant
                self.follows(old(self)),
                self.is_in_attribute_block == old(self).is_in_attribute_block,
                self.is_error == old(self).is_error,
                start <= self.pos,
                is_char_boundary(self.data.spec_bytes(), start as int),
                bareword_end(self.data.spec_bytes(), self.pos as int) == bareword_end(
                    old(self).data.spec_bytes(),
                    old(self).pos as int,
                ),
            decreases self.data.spec_bytes().len() - self.pos,
        {
            match self.peek() {
                Some((pos, c)) => {
                    if !is_bareword_char(c) {
                        return Some(Indices { start, end: pos });
                    }
                    self.advance();
                },
                None => {
                    self.emit_error("unexpected end");
                    return None;
                },
            }
        }
    }

    /// Reads the value of a key, after the `=`.
    fn parse_value(&mut self, key_indices: Indices) -> (token: Option<LangStringToken>)
        requires
            old(self).inv(),
            part_of(old(self).data.spec_bytes(), key_indices),
        ensures
            final(self).follows(old(self)),
            final(self).is_in_attribute_block == old(self).is_in_attribute_block,
            token is None ==> final(self).is_error,
            token is Some ==> final(self).is_error == old(self).is_error,
            token matches Some(token) ==> token.wf(old(self).data.spec_bytes()),
            match value_step(
                old(self).data.spec_bytes(),
                old(self).data.spec_bytes().subrange(
                    key_indices.start as int,
                    key_indices.end as int,
                ),
                old(self).pos as int,
            ) {
                Stepped::Token { token: text, pos, .. } => token matches Some(found) && found.text(
                    old(self).data.spec_bytes(),
                ) == text && final(self).pos == pos,
                _ => token is None,
            },
    {
        let value_indices = match self.advance() {
            Some((pos, c)) => {
                if c == 34 {
                    let from = self.pos;
                    match self.parse_string(from) {
                        Some(indices) => indices,
                        None => {
                            return None;
                        },
                    }
                } else if is_bareword_char(c) {
                    match self.parse_token(pos) {
                        Some(indices) => indices,
                        None => {
                            return None;
                        },
                    }
                } else {
                    self.emit_error_at("unexpected `", pos, "` character after `=`");
                    return None;
                }
            },
            None => {
                self.emit_error("expected value after `=`");
                return None;
            },
        };
        if value_indices.start == value_indices.end {
            self.emit_error("unexpected empty string as value");
            None
        } else if self.check_after_token() {
            Some(LangStringToken::KeyValueAttribute(key_indices, value_indices))
        } else {
            None
        }
    }

    /// Reads a key with its value; the key starts at `start` with `c`,
    /// which is taken already.
    fn parse_key_value(&mut self, c: u8, start: usize) -> (token: Option<LangStringToken>)
        requires
            old(self).inv(),
            old(self).pos == start + 1,
            c == old(self).data.spec_bytes()[start as int],
            c == 34 || leading_char(c),
            is_char_boundary(old(self).data.spec_bytes(), start as int),
        ensures
            final(self).follows(old(self)),
            final(self).is_in_attribute_block == old(self).is_in_attribute_block,
            token is None ==> final(self).is_error,
            token is Some ==> final(self).is_error == old(self).is_error,
            token matches Some(token) ==> token.wf(old(self).data.spec_bytes()),
            match key_value_step(old(self).data.spec_bytes(), start as int) {
                Stepped::Token { token: text, pos, .. } => token matches Some(found) && found.text(
                    old(self).data.spec_bytes(),
                ) == text && final(self).pos == pos,
                _ => token is None,
            },
    {
        let key_indices = if c == 34 {
            let from = self.pos;
            match self.parse_string(from) {
                Some(indices) => indices,
                None => {
                    return None;
                },
            }
        } else {
            match self.parse_token(start) {
                Some(indices) => indices,
                None => {
                    return None;
                },
            }
        };
        if key_indices.start == key_indices.end {
            self.emit_error("unexpected empty string as key");
            return None;
        }
        match self.advance() {
            Some((pos, c)) => {
                if c != 61 {
                    self.emit_error_at("expected `=`, found `", pos, "`");
                    return None;
                }
            },
            None => {
                self.emit_error("unexpected end");
                return None;
            },
        }
        self.parse_value(key_indices)
    }

    /// Returns `false` if an error was emitted.
    fn check_after_token(&mut self) -> (fine: bool)
        requires
            old(self).inv(),
        ensures
            final(self).follows(old(self)),
            final(self).pos == old(self).pos,
            final(self).is_in_attribute_block == old(self).is_in_attribute_block,
            !fine ==> final(self).is_error,
            fine ==> final(self).is_error == old(self).is_error,
            fine == after_token_ok(old(self).data.spec_bytes(), old(self).pos as int),
    {
        match self.peek() {
            Some((pos, c)) => {
                if c == 125 || is_separator(c) || c == 40 {
                    true
                } else {
                    self.emit_error_at("unexpected `", pos, "` character");
                    false
                }
            },
            // The error will be caught on the next iteration.
            None => true,
        }
    }

    fn parse_in_attribute_block(&mut self) -> (step: Step)
        requires
            old(self).inv(),
            old(self).pos < old(self).data.spec_bytes().len(),
            old(self).is_in_attribute_block,
        ensures
            final(self).follows(old(self)),
            old(self).pos < final(self).pos,
            step is End ==> final(self).is_error,
            !(step is End) ==> final(self).is_error == old(self).is_error,
            step matches Step::Token(token) ==> token.wf(old(self).data.spec_bytes()),
            stepped(
                step,
                old(self).data.spec_bytes(),
                final(self).pos,
                final(self).is_in_attribute_block,
            ) == in_block_step(old(self).data.spec_bytes(), old(self).pos as int),
    {
        match self.advance() {
            Some((pos, c)) => {
                if c == 125 {
                    self.is_in_attribute_block = false;
                    Step::Again
                } else if c == 46 {
                    let from = self.pos;
                    match self.parse_class(from) {
                        Some(token) => Step::Token(token),
                        None => Step::End,
                    }
                } else if c == 34 || is_leading_char(c) {
                    match self.parse_key_value(c, pos) {
                        Some(token) => Step::Token(token),
                        None => Step::End,
                    }
                } else {
                    self.emit_error_at("unexpected character `", pos, "`");
                    Step::End
                }
            },
            None => {
                self.emit_error("unclosed attribute block (`{}`): missing `}` at the end");
                Step::End
            },
        }
    }

    /// Returns `false` if an error was emitted.
    fn skip_paren_block(&mut self) -> (closed: bool)
        requires
            old(self).inv(),
        ensures
            final(self).follows(old(self)),
            final(self).is_in_attribute_block == old(self).is_in_attribute_block,
            !closed ==> final(self).is_error,
            closed ==> final(self).is_error == old(self).is_error,
            closed == (find_byte(old(self).data.spec_bytes(), old(self).pos as int, 41) < old(
                self,
            ).data.spec_bytes().len()),
            closed ==> final(self).pos == find_byte(
                old(self).data.spec_bytes(),
                old(self).pos as int,
                41,
            ) + 1,
    {
        loop
            invariant
                self.follows(old(self)),
                self.is_in_attribute_block == old(self).is_in_attribute_block,
                self.is_error == old(self).is_error,
                find_byte(self.data.spec_bytes(), self.pos as int, 41) == find_byte(
                    old(self).data.spec_bytes(),
                    old(self).pos as int,
                    41,
                ),
            decreases self.data.spec_bytes().len() - self.pos,
        {
            let ghost before = self.pos;
            match self.advance() {
                Some((_, c)) => {
                    if c == 41 {
                        return true;
                    }
                    proof {
                        lemma_find_skip(self.data.spec_bytes(), before as int, self.pos as int, 41);
                    }
                },
                None => {
                    self.emit_error("unclosed comment: missing `)` at the end");
                    return false;
                },
            }
        }
    }

    /// Reads the string in double quotes that stands as a token outside an
    /// attribute block; its opening quote is taken already.
    fn parse_quoted_token(&mut self) -> (step: Step)
        requires
            old(self).inv(),
            !old(self).is_in_attribute_block,
        ensures
            final(self).follows(old(self)),
            !final(self).is_in_attribute_block,
            step is End ==> final(self).is_error,
            !(step is End) ==> final(self).is_error == old(self).is_error,
            step matches Step::Token(token) ==> token.wf(old(self).data.spec_bytes()),
            !(step is Again),
            ({
                let bytes = old(self).data.spec_bytes();
                let close = find_byte(bytes, old(self).pos as int, 34);
                if close >= bytes.len() || (close + 1 < bytes.len() && !(bytes[close + 1] == 123
                    || separator(bytes[close + 1]) || bytes[close + 1] == 40)) {
                    step is End
                } else {
                    step matches Step::Token(token) && token.text(bytes) == Token::LangToken(
                        bytes.subrange(old(self).pos as int, close),
                    ) && final(self).pos == close + 1
                }
            }),
    {
        let from = self.pos;
        let indices = match self.parse_string(from) {
            Some(indices) => indices,
            None => {
                return Step::End;
            },
        };
        match self.peek() {
            Some((at, c)) => {
                if c != 123 && !is_separator(c) && c != 40 {
                    self.emit_error_at("expected ` `, `{` or `,` after `\"`, found `", at, "`");
                    return Step::End;
                }
            },
            None => {},
        }
        Step::Token(LangStringToken::LangToken(indices))
    }

    fn parse_outside_attribute_block(&mut self, start: usize) -> (step: Step)
        requires
            old(self).inv(),
            start == old(self).pos,
            old(self).pos < old(self).data.spec_bytes().len(),
            !old(self).is_in_attribute_block,
        ensures
            final(self).follows(old(self)),
            old(self).pos < final(self).pos,
            step is End ==> final(self).is_error,
            !(step is End) ==> final(self).is_error == old(self).is_error,
            step matches Step::Token(token) ==> token.wf(old(self).data.spec_bytes()),
            stepped(
                step,
                old(self).data.spec_bytes(),
                final(self).pos,
                final(self).is_in_attribute_block,
            ) == outside_step(old(self).data.spec_bytes(), start as int, start as int),
    {
        loop
            invariant
                self.follows(old(self)),
                self.is_error == old(self).is_error,
                !self.is_in_attribute_block,
                start == old(self).pos,
                start <= self.pos,
                start < self.data.spec_bytes().len(),
                is_char_boundary(self.data.spec_bytes(), start as int),
                outside_step(self.data.spec_bytes(), start as int, self.pos as int)
                    == outside_step(self.data.spec_bytes(), start as int, start as int),
            decreases self.data.spec_bytes().len() - self.pos,
        {
            match self.advance() {
                Some((pos, c)) => {
                    if c == 34 {
                        if pos != start {
                            self.emit_error("expected ` `, `{` or `,` found `\"`");
                            return Step::End;
                        }
                        return self.parse_quoted_token();
                    } else if c == 123 {
                        self.is_in_attribute_block = true;
                        return Step::Again;
                    } else if is_separator(c) {
                        if pos != start {
                            return Step::Token(
                                LangStringToken::LangToken(Indices { start, end: pos }),
                            );
                        }
                        return Step::Again;
                    } else if c == 40 {
                        if !self.skip_paren_block() {
                            return Step::End;
                        }
                        if pos != start {
                            return Step::Token(
                                LangStringToken::LangToken(Indices { start, end: pos }),
                            );
                        }
                        return Step::Again;
                    } else if (pos == start && is_leading_char(c)) || (pos != start
                        && is_bareword_char(c)) {
                    } else {
                        self.emit_error_at("unexpected character `", pos, "`");
                        return Step::End;
                    }
                },
                None => {
                    let end = byte_len(self.data);
                    return Step::Token(LangStringToken::LangToken(Indices { start, end }));
                },
            }
        }
    }

    /// The next token, if there is one: none after an error, and none at
    /// the end of the attributes.
    pub fn next(&mut self) -> (token: Option<LangStringToken>)
        requires
            old(self).inv(),
        ensures
            final(self).follows(old(self)),
            token is Some ==> old(self).pos < final(self).pos,
            token matches Some(token) ==> token.wf(old(self).data.spec_bytes()) && !final(self).is_error,
            old(self).is_error ==> token is None,
            !old(self).is_error ==> ({
                let bytes = old(self).data.spec_bytes();
                let all = lexed_from(bytes, old(self).pos as int, old(self).is_in_attribute_block);
                let rest = lexed_from(bytes, final(self).pos as int, final(self).is_in_attribute_block);
                match token {
                    Some(token) => all.tokens == seq![token.text(bytes)] + rest.tokens
                        && all.failed == rest.failed,
                    None => all.tokens.len() == 0 && all.failed == final(self).is_error,
                }
            }),
    {
        loop
            invariant
                self.follows(old(self)),
                self.is_error == old(self).is_error,
                lexed_from(
                    self.data.spec_bytes(),
                    self.pos as int,
                    self.is_in_attribute_block,
                ) == lexed_from(
                    old(self).data.spec_bytes(),
                    old(self).pos as int,
                    old(self).is_in_attribute_block,
                ),
            decreases self.data.spec_bytes().len() - self.pos,
        {
            if self.is_error {
                return None;
            }
            let ghost before = self.pos;
            let start = match self.skip_separators() {
                Some(start) => start,
                None => {
                    if self.is_in_attribute_block {
                        self.emit_error("unclosed attribute block (`{}`): missing `}` at the end");
                    }
                    return None;
                },
            };
            let step = if self.is_in_attribute_block {
                self.parse_in_attribute_block()
            } else {
                self.parse_outside_attribute_block(start)
            };
            match step {
                Step::Token(token) => {
                    return Some(token);
                },
                Step::Again => {},
                Step::End => {
                    return None;
                },
            }
        }
    }
}

/// A step with where it leaves the iterator.
pub open spec fn stepped(step: Step, bytes: Seq<u8>, pos: usize, in_block: bool) -> Stepped {
    match step {
        Step::Token(token) => Stepped::Token { token: token.text(bytes), pos: pos as int, in_block },
        Step::Again => Stepped::Again { pos: pos as int, in_block },
        Step::End => Stepped::Failed,
    }
}

/// Where the text holds no `byte`, the search for it goes on behind.
proof fn lemma_find_skip(bytes: Seq<u8>, from: int, to: int, byte: u8)
    requires
        0 <= from <= to <= bytes.len(),
        forall|j: int| from <= j < to ==> bytes[j] != byte,
    ensures
        find_byte(bytes, from, byte) == find_byte(bytes, to, byte),
    decreases to - from,
{
    if from < to {
        lemma_find_skip(bytes, from + 1, to, byte);
    }
}

/// What the tokens seen so far say about the language of the code block.
pub struct Seen {
    /// Whether a token was seen that marks the block as Rust.
    pub rust_tags: bool,
    /// Whether a token was seen that rustdoc does not know.
    pub other_tags: bool,
    /// Whether the token `custom` was seen.
    pub custom_tag: bool,
}

impl Seen {
    /// Whether the code block holds Rust: it is not marked as custom, and
    /// where it has a token that rustdoc does not know it also has one that
    /// marks it as Rust.
    pub open spec fn rust(self) -> bool {
        !self.custom_tag && (!self.other_tags || self.rust_tags)
    }
}

/// Whether the text is `E` and four more bytes.
pub open spec fn is_error_code_like(text: Seq<u8>) -> bool {
    text.len() == 5 && text[0] == 69
}

/// What is seen after one more token.
pub open spec fn seen_after(seen: Seen, token: Token) -> Seen {
    match token {
        Token::LangToken(text) => {
            if text == "should_panic".spec_bytes() || text == "no_run".spec_bytes() || text
                == "ignore".spec_bytes() || starts_with(text, "ignore-".spec_bytes()) {
                Seen { rust_tags: !seen.other_tags, ..seen }
            } else if text == "rust".spec_bytes() {
                Seen { rust_tags: true, ..seen }
            } else if text == "custom".spec_bytes() {
                Seen { custom_tag: true, ..seen }
            } else if text == "test_harness".spec_bytes() || text == "compile_fail".spec_bytes()
                || text == "standalone_crate".spec_bytes() {
                Seen { rust_tags: !seen.other_tags || seen.rust_tags, ..seen }
            } else if starts_with(text, "edition".spec_bytes()) {
                seen
            } else if is_error_code_like(text) {
                if is_number(text.subrange(1, 5), u32::MAX as int) {
                    Seen { rust_tags: !seen.other_tags || seen.rust_tags, ..seen }
                } else {
                    Seen { other_tags: true, ..seen }
                }
            } else {
                Seen { other_tags: true, ..seen }
            }
        },
        _ => seen,
    }
}

/// What is seen after all the tokens.
pub open spec fn parsed(tokens: Seq<Token>) -> Seen
    decreases tokens.len(),
{
    if tokens.len() == 0 {
        Seen { rust_tags: false, other_tags: false, custom_tag: false }
    } else {
        seen_after(parsed(tokens.drop_last()), tokens.last())
    }
}

/// What the tokens seen so far say about the code block.
pub struct LangModel {
    pub should_panic: bool,
    pub no_run: bool,
    /// Whether `ignore` was seen.
    pub ignore_all: bool,
    /// What was seen after `ignore-`.
    pub ignores: Seq<Seq<u8>>,
    pub test_harness: bool,
    pub compile_fail: bool,
    pub standalone_crate: bool,
    pub error_codes: Seq<Seq<u8>>,
    /// Whether the last edition seen is one.
    pub edition: bool,
    pub added_classes: Seq<Seq<u8>>,
    pub unknown: Seq<Seq<u8>>,
}

/// What is known before any token.
pub open spec fn empty_model() -> LangModel {
    LangModel {
        should_panic: false,
        no_run: false,
        ignore_all: false,
        ignores: Seq::empty(),
        test_harness: false,
        compile_fail: false,
        standalone_crate: false,
        error_codes: Seq::empty(),
        edition: false,
        added_classes: Seq::empty(),
        unknown: Seq::empty(),
    }
}

/// The text without its first `count` bytes; empty if it is shorter.
pub open spec fn without_prefix(text: Seq<u8>, count: int) -> Seq<u8> {
    if text.len() >= count {
        text.subrange(count, text.len() as int)
    } else {
        Seq::empty()
    }
}

/// What is known after one more token.
pub open spec fn model_after(model: LangModel, token: Token) -> LangModel {
    match token {
        Token::LangToken(text) => {
            if text == "should_panic".spec_bytes() {
                LangModel { should_panic: true, ..model }
            } else if text == "no_run".spec_bytes() {
                LangModel { no_run: true, ..model }
            } else if text == "ignore".spec_bytes() {
                LangModel { ignore_all: true, ..model }
            } else if starts_with(text, "ignore-".spec_bytes()) {
                LangModel { ignores: model.ignores.push(without_prefix(text, 7)), ..model }
            } else if text == "rust".spec_bytes() {
                model
            } else if text == "custom".spec_bytes() {
                model
            } else if text == "test_harness".spec_bytes() {
                LangModel { test_harness: true, ..model }
            } else if text == "compile_fail".spec_bytes() {
                LangModel { compile_fail: true, no_run: true, ..model }
            } else if text == "standalone_crate".spec_bytes() {
                LangModel { standalone_crate: true, ..model }
            } else if starts_with(text, "edition".spec_bytes()) {
                LangModel {
                    edition: without_prefix(text, 7) == "future".spec_bytes() || is_number(
                        without_prefix(text, 7),
                        65535,
                    ),
                    ..model
                }
            } else if is_error_code_like(text) {
                if is_number(text.subrange(1, 5), u32::MAX as int) {
                    LangModel { error_codes: model.error_codes.push(text), ..model }
                } else {
                    model
                }
            } else {
                LangModel { unknown: model.unknown.push(text), ..model }
            }
        },
        Token::KeyValueAttribute(key, value) => {
            if key == "class".spec_bytes() {
                LangModel { added_classes: model.added_classes.push(value), ..model }
            } else {
                model
            }
        },
        Token::ClassAttribute(class) => LangModel {
            added_classes: model.added_classes.push(class),
            ..model
        },
    }
}

/// What the tokens say about the code block.
pub open spec fn model_of(tokens: Seq<Token>) -> LangModel
    decreases tokens.len(),
{
    if tokens.len() == 0 {
        empty_model()
    } else {
        model_after(model_of(tokens.drop_last()), tokens.last())
    }
}

/// The texts of the strings, as bytes.
pub open spec fn encoded(strings: Seq<String>) -> Seq<Seq<u8>> {
    Seq::new(strings.len(), |i: int| encode_utf8(strings[i]@))
}

/// One more string gives one more text.
pub proof fn lemma_encoded_push(strings: Seq<String>, string: String)
    ensures
        encoded(strings.push(string)) == encoded(strings).push(encode_utf8(string@)),
{
    assert(encoded(strings.push(string)) =~= encoded(strings).push(encode_utf8(string@)));
}

impl LangString {
    /// Whether the attributes hold what the tokens say; `ignores` is what
    /// was seen after `ignore-`.
    pub open spec fn holds(&self, model: LangModel, ignores: Seq<String>) -> bool {
        &&& self.should_panic == model.should_panic
        &&& self.no_run == model.no_run
        &&& (self.ignore is All) == model.ignore_all
        &&& !(self.ignore is Platforms)
        &&& encoded(ignores) == model.ignores
        &&& self.test_harness == model.test_harness
        &&& self.compile_fail == model.compile_fail
        &&& self.standalone_crate == model.standalone_crate
        &&& encoded(self.error_codes@) == model.error_codes
        &&& (self.edition is Some) == model.edition
        &&& encoded(self.added_classes@) == model.added_classes
        &&& encoded(self.unknown@) == model.unknown
    }

    /// Whether the attributes are those that the tokens make: every switch
    /// and every list as the tokens say, and what was seen after `ignore-`
    /// in place of `ignore` where there is any.
    pub open spec fn made_of(&self, model: LangModel) -> bool {
        &&& self.should_panic == model.should_panic
        &&& self.no_run == model.no_run
        &&& match self.ignore {
            Ignore::Platforms(ignores) => model.ignores.len() > 0 && encoded(ignores@)
                == model.ignores,
            Ignore::All => model.ignores.len() == 0 && model.ignore_all,
            Ignore::Nowhere => model.ignores.len() == 0 && !model.ignore_all,
        }
        &&& self.test_harness == model.test_harness
        &&& self.compile_fail == model.compile_fail
        &&& self.standalone_crate == model.standalone_crate
        &&& encoded(self.error_codes@) == model.error_codes
        &&& (self.edition is Some) == model.edition
        &&& encoded(self.added_classes@) == model.added_classes
        &&& encoded(self.unknown@) == model.unknown
    }
}

/// The text of a part of the attributes.
fn part(data: &str, indices: Indices) -> (text: String)
    requires
        part_of(data.spec_bytes(), indices),
    ensures
        encode_utf8(text@) == data.spec_bytes().subrange(indices.start as int, indices.end as int),
{
    match substr(data, indices.start, indices.end) {
        Some(text) => text.to_owned(),
        None => String::new(),
    }
}

impl Default for LangString {
    fn default() -> (data: Self)
        ensures
            data.rust,
            !data.should_panic,
            !data.no_run,
            !data.test_harness,
            !data.compile_fail,
            !data.standalone_crate,
            data.ignore is Nowhere,
            data.edition is None,
            data.original@.len() == 0,
            data.error_codes@.len() == 0,
            data.added_classes@.len() == 0,
            data.unknown@.len() == 0,
    {
        LangString {
            original: String::new(),
            should_panic: false,
            no_run: false,
            ignore: Ignore::Nowhere,
            rust: true,
            test_harness: false,
            compile_fail: false,
            standalone_crate: false,
            error_codes: Vec::new(),
            edition: None,
            added_classes: Vec::new(),
            unknown: Vec::new(),
        }
    }
}

impl LangString {
    /// Takes a token that is a word into the attributes.
    fn take_word(
        &mut self,
        string: &str,
        ignores: &mut Vec<String>,
        seen: &mut Seen,
        x: Indices,
        Ghost(model): Ghost<LangModel>,
    )
        requires
            part_of(string.spec_bytes(), x),
            old(self).holds(model, old(ignores)@),
            old(self).rust,
        ensures
            final(self).holds(
                model_after(
                    model,
                    Token::LangToken(string.spec_bytes().subrange(x.start as int, x.end as int)),
                ),
                final(ignores)@,
            ),
            *final(seen) == seen_after(
                *old(seen),
                Token::LangToken(string.spec_bytes().subrange(x.start as int, x.end as int)),
            ),
            final(self).rust,
            final(self).original == old(self).original,
    {
        let bytes = string.as_bytes();
        let ghost text = bytes@.subrange(x.start as int, x.end as int);
        proof {
            encode_utf8_valid_utf8(string@);
        }
        if range_is(bytes, x.start, x.end, "should_panic".as_bytes()) {
            self.should_panic = true;
            seen.rust_tags = !seen.other_tags;
        } else if range_is(bytes, x.start, x.end, "no_run".as_bytes()) {
            self.no_run = true;
            seen.rust_tags = !seen.other_tags;
        } else if range_is(bytes, x.start, x.end, "ignore".as_bytes()) {
            self.ignore = Ignore::All;
            seen.rust_tags = !seen.other_tags;
        } else if range_starts_with(bytes, x.start, x.end, "ignore-".as_bytes()) {
            let prefix = "ignore-".as_bytes().len();
            proof {
                reveal_strlit("ignore-");
                assert(is_ascii_chars("ignore-"@));
                is_ascii_chars_encode_utf8("ignore-"@);
                assert("ignore-".spec_bytes().len() == 7);
                assert("ignore-".spec_bytes()[6] == 45);
                assert(text.subrange(0, 7)[6] == text[6]);
                assert(text[6] == bytes@[x.start + 6]);
                lemma_ascii_boundary(bytes@, x.start + 6);
            }
            let from = x.start + prefix;
            let rest = part(string, Indices { start: from, end: x.end });
            proof {
                assert(bytes@.subrange(from as int, x.end as int) =~= without_prefix(text, 7));
                lemma_encoded_push(ignores@, rest);
            }
            ignores.push(rest);
            seen.rust_tags = !seen.other_tags;
        } else if range_is(bytes, x.start, x.end, "rust".as_bytes()) {
            self.rust = true;
            seen.rust_tags = true;
        } else if range_is(bytes, x.start, x.end, "custom".as_bytes()) {
            seen.custom_tag = true;
        } else {
            self.take_other_word(string, seen, x, Ghost(model));
        }
    }

    /// Takes a token that is a word, and none of the first that rustdoc
    /// knows, into the attributes.
    fn take_other_word(
        &mut self,
        string: &str,
        seen: &mut Seen,
        x: Indices,
        Ghost(model): Ghost<LangModel>,
    )
        requires
            part_of(string.spec_bytes(), x),
            old(self).rust,
            ({
                let text = string.spec_bytes().subrange(x.start as int, x.end as int);
                &&& text != "should_panic".spec_bytes()
                &&& text != "no_run".spec_bytes()
                &&& text != "ignore".spec_bytes()
                &&& !starts_with(text, "ignore-".spec_bytes())
                &&& text != "rust".spec_bytes()
                &&& text != "custom".spec_bytes()
            }),
        ensures
            forall|ignores: Seq<String>|
                old(self).holds(model, ignores) ==> #[trigger] final(self).holds(
                    model_after(
                        model,
                        Token::LangToken(
                            string.spec_bytes().subrange(x.start as int, x.end as int),
                        ),
                    ),
                    ignores,
                ),
            *final(seen) == seen_after(
                *old(seen),
                Token::LangToken(string.spec_bytes().subrange(x.start as int, x.end as int)),
            ),
            final(self).rust,
            final(self).original == old(self).original,
    {
        let bytes = string.as_bytes();
        let ghost text = bytes@.subrange(x.start as int, x.end as int);
        if range_is(bytes, x.start, x.end, "test_harness".as_bytes()) {
            self.test_harness = true;
            seen.rust_tags = !seen.other_tags || seen.rust_tags;
        } else if range_is(bytes, x.start, x.end, "compile_fail".as_bytes()) {
            self.compile_fail = true;
            seen.rust_tags = !seen.other_tags || seen.rust_tags;
            self.no_run = true;
        } else if range_is(bytes, x.start, x.end, "standalone_crate".as_bytes()) {
            self.standalone_crate = true;
            seen.rust_tags = !seen.other_tags || seen.rust_tags;
        } else if range_starts_with(bytes, x.start, x.end, "edition".as_bytes()) {
            let prefix = "edition".as_bytes().len();
            proof {
                reveal_strlit("edition");
                assert(is_ascii_chars("edition"@));
                is_ascii_chars_encode_utf8("edition"@);
                assert("edition".spec_bytes().len() == 7);
            }
            let from = x.start + prefix;
            proof {
                assert(bytes@.subrange(from as int, x.end as int) =~= without_prefix(text, 7));
            }
            self.edition = if range_is(bytes, from, x.end, "future".as_bytes())
                || parses_as_number(bytes, from, x.end, 65535) {
                Some(Edition)
            } else {
                None
            };
        } else if x.end - x.start == 5 && bytes[x.start] == 69 {
            proof {
                assert(text[0] == bytes@[x.start as int]);
                assert(text.subrange(1, 5) =~= bytes@.subrange(x.start + 1, x.end as int));
            }
            if parses_as_number(bytes, x.start + 1, x.end, 4294967295) {
                let code = part(string, x);
                proof {
                    lemma_encoded_push(self.error_codes@, code);
                }
                self.error_codes.push(code);
                seen.rust_tags = !seen.other_tags || seen.rust_tags;
            } else {
                seen.other_tags = true;
            }
        } else {
            proof {
                if text.len() > 0 {
                    assert(text[0] == bytes@[x.start as int]);
                }
            }
            seen.other_tags = true;
            let other = part(string, x);
            proof {
                lemma_encoded_push(self.unknown@, other);
            }
            self.unknown.push(other);
        }
    }

    /// Takes a token into the attributes.
    fn take(
        &mut self,
        string: &str,
        ignores: &mut Vec<String>,
        seen: &mut Seen,
        token: LangStringToken,
        Ghost(model): Ghost<LangModel>,
    )
        requires
            token.wf(string.spec_bytes()),
            old(self).holds(model, old(ignores)@),
            old(self).rust,
        ensures
            final(self).holds(
                model_after(model, token.text(string.spec_bytes())),
                final(ignores)@,
            ),
            *final(seen) == seen_after(*old(seen), token.text(string.spec_bytes())),
            final(self).rust,
            final(self).original == old(self).original,
    {
        let bytes = string.as_bytes();
        match token {
            LangStringToken::LangToken(x) => {
                self.take_word(string, ignores, seen, x, Ghost(model));
            },
            LangStringToken::KeyValueAttribute(key, value) => {
                if range_is(bytes, key.start, key.end, "class".as_bytes()) {
                    let class = part(string, value);
                    proof {
                        lemma_encoded_push(self.added_classes@, class);
                    }
                    self.added_classes.push(class);
                }
            },
            LangStringToken::ClassAttribute(class) => {
                let class = part(string, class);
                proof {
                    lemma_encoded_push(self.added_classes@, class);
                }
                self.added_classes.push(class);
            },
        }
    }

    /// Reads the attributes of a code block. Errors in them are added to
    /// `extra`.
    pub fn parse(string: &str, extra: ExtraInfo) -> (result: (Self, ExtraInfo))
        ensures
            result.0.original@ == string@,
            extra.errors@.len() <= result.1.errors@.len(),
            result.1.errors@.len() > extra.errors@.len() <==> lexed(string.spec_bytes()).failed,
            result.0.rust == (parsed(lexed(string.spec_bytes()).tokens).rust() && !lexed(
                string.spec_bytes(),
            ).failed),
            result.0.made_of(model_of(lexed(string.spec_bytes()).tokens)),
    {
        let mut seen = Seen { rust_tags: false, other_tags: false, custom_tag: false };
        let mut data = LangString::default();
        let mut ignores: Vec<String> = Vec::new();
        data.original = string.to_owned();
        let bytes = string.as_bytes();
        let mut tag_iter = TagIterator::new(string, extra);
        let ghost tokens: Seq<Token> = Seq::empty();
        proof {
            assert(encoded(ignores@) =~= Seq::<Seq<u8>>::empty());
            assert(encoded(data.error_codes@) =~= Seq::<Seq<u8>>::empty());
            assert(encoded(data.added_classes@) =~= Seq::<Seq<u8>>::empty());
            assert(encoded(data.unknown@) =~= Seq::<Seq<u8>>::empty());
        }
        loop
            invariant_except_break
                !tag_iter.is_error,
                lexed(bytes@).tokens == tokens + lexed_from(
                    bytes@,
                    tag_iter.pos as int,
                    tag_iter.is_in_attribute_block,
                ).tokens,
                lexed(bytes@).failed == lexed_from(
                    bytes@,
                    tag_iter.pos as int,
                    tag_iter.is_in_attribute_block,
                ).failed,
            invariant
                tag_iter.inv(),
                tag_iter.data == string,
                tag_iter.earlier@ == extra.errors@.len(),
                bytes@ == string.spec_bytes(),
                data.original@ == string@,
                data.rust,
                data.holds(model_of(tokens), ignores@),
                parsed(tokens) == seen,
            ensures
                tag_iter.inv(),
                tag_iter.earlier@ == extra.errors@.len(),
                data.original@ == string@,
                data.rust,
                lexed(bytes@).tokens == tokens,
                lexed(bytes@).failed == tag_iter.is_error,
                data.holds(model_of(tokens), ignores@),
                parsed(tokens) == seen,
            decreases bytes@.len() - tag_iter.pos,
        {
            let token = match tag_iter.next() {
                Some(token) => token,
                None => {
                    break ;
                },
            };
            data.take(string, &mut ignores, &mut seen, token, Ghost(model_of(tokens)));
            proof {
                let longer = tokens.push(token.text(bytes@));
                assert(longer.drop_last() =~= tokens);
                assert(longer.last() == token.text(bytes@));
                assert(longer + lexed_from(
                    bytes@,
                    tag_iter.pos as int,
                    tag_iter.is_in_attribute_block,
                ).tokens =~= tokens + (seq![token.text(bytes@)] + lexed_from(
                    bytes@,
                    tag_iter.pos as int,
                    tag_iter.is_in_attribute_block,
                ).tokens));
                tokens = longer;
            }
        }
        // ignore-foo overrides ignore
        if ignores.len() > 0 {
            data.ignore = Ignore::Platforms(ignores);
        }
        data.rust = data.rust && !seen.custom_tag && (!seen.other_tags || seen.rust_tags)
            && !tag_iter.is_error;
        (data, tag_iter.extra)
    }
}

} // verus!
