//! Candid texts that `candid_parser` reads to the end.
//!
//! Its parser, and what `candid` does with the values, stop the program on a few texts. A
//! scan over the bytes of a text tells them apart:
//!
//! - A hexadecimal numeral with a capital `X` keeps its `0X` (`token.rs`, `parse_number`) and
//!   is then no number where a number is expected (`grammar.lalrpop`, `Number`).
//! - The fields of a record are counted in 32 bits from the label before them
//!   (`grammar.lalrpop`, the `record` rules of `Arg` and `Typ`); the count must not run over.
//! - A quoted text that is no UTF-8 and stands where none is expected is printed all the
//!   same (`token.rs`, `Display` of `Token`). It is expected where an element begins, behind
//!   the `=` of a field and the point of a function, and behind the words that take one.
//! - A value that does not fit a type is printed, and a vector that begins with a `nat8` and
//!   holds another value cannot be (`pretty/candid.rs`, `Debug` of `IDLValue`).
//! - Values and types nest on the stack, and so do comments in a row (`token.rs`, `next`) and
//!   the types that a contract names (`ser.rs`, `build_type`).
//! - A variant whose label holds a comma cannot be decoded (`types/value.rs`, `visit_enum`).
//!
//! The scan splits the text as `token.rs` does, and follows braces, parentheses and the
//! colons that put a type behind a value. Behind a mistake in the text it may see anything:
//! the parser stops there with an error.
use vstd::prelude::*;
use vstd::utf8::encode_utf8;

verus! {

/// The number of labels that a record can have.
pub const LABELS: u64 = 0x1_0000_0000;

/// The largest label.
pub const LAST_LABEL: u64 = 0xffff_ffff;

/// How deep values and types may nest.
pub const MAX_DEPTH: u64 = 128;

/// How many types a contract may be made of.
pub const MAX_TYPES: u64 = 1024;

/// How many comments may stand in a row.
pub const MAX_COMMENTS: u64 = 256;

/// The word `record`.
pub const RECORD: u128 = 0x7265_636f_7264;

/// The word `vec`.
pub const VEC: u128 = 0x76_6563;

/// The word `variant`.
pub const VARIANT: u128 = 0x76_6172_6961_6e74;

/// The word `opt`.
pub const OPT: u128 = 0x6f_7074;

/// The word `blob`.
pub const BLOB: u128 = 0x626c_6f62;

/// The word `nat8`.
pub const NAT8: u128 = 0x6e61_7438;

/// The word `service`.
pub const SERVICE: u128 = 0x73_6572_7669_6365;

/// The word `func`.
pub const FUNC: u128 = 0x6675_6e63;

/// The word `import`.
pub const IMPORT: u128 = 0x696d_706f_7274;

/// The word `principal`.
pub const PRINCIPAL: u128 = 0x70_7269_6e63_6970_616c;

/// What the scan is in the middle of.
#[derive(Clone, Copy, Debug, PartialEq, Eq, Structural)]
pub enum ScanMode {
    /// Between tokens.
    Between,
    /// After a slash.
    Slash,
    /// In a comment up to the end of the line.
    Line,
    /// In a comment between `/*` and `*/`.
    Block,
    /// In a name.
    Name,
    /// After a lone zero.
    Zero,
    /// In a decimal numeral.
    Decimal,
    /// In a decimal numeral with an underscore.
    Grouped,
    /// After `0x`.
    HexStart,
    /// In a hexadecimal numeral.
    Hex,
    /// After `0X`.
    CapitalStart,
    /// In a hexadecimal numeral with a capital `X`.
    Capital,
    /// After a point between tokens.
    Dot,
    /// In the fraction of a number.
    Fraction,
    /// After the `e` of a number.
    Exponent,
    /// After the sign of an exponent.
    ExponentSign,
    /// In the last digits of a number.
    Digits,
    /// In a word that is no token.
    Other,
    /// In a quoted text.
    Quote,
    /// After a backslash in a quoted text.
    Escape,
    /// After a backslash and a hexadecimal digit.
    EscapeDigit,
    /// After `\u`.
    CodeStart,
    /// After `\u{`.
    CodeOpen,
    /// In the number of a character.
    Code,
}

/// A token of the text.
#[derive(Clone, Copy, Debug, PartialEq, Eq, Structural)]
pub enum Token {
    /// A name: its letters in one number, and the label that it is.
    Name(u128, u64),
    /// A numeral, with its value up to [`LABELS`].
    Numeral(u64),
    /// A hexadecimal numeral with a capital `X`.
    Capital,
    /// A quoted text: the label that it is, whether it is UTF-8, and whether it holds a comma.
    Text(u64, bool, bool),
    /// A sign.
    Mark(u8),
    /// Anything else.
    Other,
}

/// What the scan knows of the token that it is in the middle of.
#[derive(Clone, Copy, Debug)]
pub struct Lexer {
    pub mode: ScanMode,
    /// The label or the value so far.
    pub id: u64,
    /// The letters of a name in one number, up to sixteen of them.
    pub word: u128,
    /// How many bytes a character of a quoted text still needs, and between which bounds the
    /// next one lies.
    pub need: u8,
    pub low: u8,
    pub high: u8,
    /// Whether a quoted text is not UTF-8, holds a comma, or holds no known escape.
    pub invalid: bool,
    pub comma: bool,
    pub unknown: bool,
    /// The number of a character, or a first digit.
    pub code: u64,
    /// How deep comments are nested, and the byte before in one.
    pub nested: u64,
    pub before: u8,
}

/// What a frame is opened by.
#[derive(Clone, Copy, Debug, PartialEq, Eq, Structural)]
pub enum FrameKind {
    Record,
    Vector,
    Variant,
    Other,
}

/// The inside of a pair of braces or parentheses, or of the whole text.
#[derive(Clone, Copy, Debug)]
pub struct Frame {
    pub kind: FrameKind,
    /// Whether it stands in a type.
    pub in_type: bool,
    /// Whether the element so far holds a token.
    pub started: bool,
    /// Whether the element has come to its type.
    pub typed: bool,
    /// Whether a token of that type has been seen.
    pub type_begun: bool,
    /// Whether the element has a label, and which.
    pub labelled: bool,
    pub label: u64,
    /// The label that the next field without one gets.
    pub next: u64,
    /// Whether that count has run over.
    pub overflow: bool,
    /// How many times the element is `opt` or `vec` of something.
    pub wraps: u64,
    /// Whether the element is a `nat8`.
    pub byte: bool,
    /// Whether there is an element, and the first one is a `nat8`.
    pub begun: bool,
    pub first_byte: bool,
    /// Whether the elements are a `nat8` and something else.
    pub mixed: bool,
    /// Whether the element holds a vector with a `nat8` and something else.
    pub holds_mixed: bool,
    /// Whether an element before does.
    pub held_mixed: bool,
}

/// A scan.
pub struct Scan {
    pub lexer: Lexer,
    pub frames: Vec<Frame>,
    /// The token before.
    pub last: Token,
    /// How deep the text is nested now.
    pub depth: u64,
    /// How many types there may be.
    pub types: u64,
    /// How many comments there are behind the token before.
    pub comments: u64,
    /// Whether a hexadecimal numeral with a capital `X` is taken for a number.
    pub capital: bool,
    /// Whether the count of the fields of a record has run over.
    pub overflow: bool,
    /// Whether a quoted text that is not UTF-8 stands where none is expected.
    pub invalid: bool,
    /// Whether the text nests too deep, or has too many comments in a row.
    pub deep: bool,
    /// Whether a vector holds a `nat8` and something else, and whether one stands before a
    /// type.
    pub mixed: bool,
    pub mixed_typed: bool,
    /// Whether a label of a variant holds a comma.
    pub comma: bool,
    /// Whether a type stands behind a value, and whether one is of lists or services.
    pub annotated: bool,
    pub lists: bool,
}

/// The model of a scan.
pub struct ScanModel {
    pub lexer: Lexer,
    pub frames: Seq<Frame>,
    pub last: Token,
    pub depth: u64,
    pub types: u64,
    pub comments: u64,
    pub capital: bool,
    pub overflow: bool,
    pub invalid: bool,
    pub deep: bool,
    pub mixed: bool,
    pub mixed_typed: bool,
    pub comma: bool,
    pub annotated: bool,
    pub lists: bool,
}

impl View for Scan {
    type V = ScanModel;

    open spec fn view(&self) -> ScanModel {
        ScanModel {
            lexer: self.lexer,
            frames: self.frames@,
            last: self.last,
            depth: self.depth,
            types: self.types,
            comments: self.comments,
            capital: self.capital,
            overflow: self.overflow,
            invalid: self.invalid,
            deep: self.deep,
            mixed: self.mixed,
            mixed_typed: self.mixed_typed,
            comma: self.comma,
            annotated: self.annotated,
            lists: self.lists,
        }
    }
}

/// A number, or `limit` where it is larger.
pub open spec fn up_to(n: int, limit: u64) -> u64 {
    if n < limit {
        n as u64
    } else {
        limit
    }
}

/// One number less another, or zero.
pub open spec fn less(n: u64, k: u64) -> u64 {
    if n >= k {
        (n - k) as u64
    } else {
        0
    }
}

/// A byte of a name.
pub open spec fn is_word(b: u8) -> bool {
    0x30 <= b <= 0x39 || 0x41 <= b <= 0x5a || 0x61 <= b <= 0x7a || b == 0x5f
}

/// A decimal digit.
pub open spec fn is_decimal(b: u8) -> bool {
    0x30 <= b <= 0x39
}

/// The value of a hexadecimal digit.
pub open spec fn hex_value(b: u8) -> Option<u64> {
    if 0x30 <= b <= 0x39 {
        Some((b - 0x30) as u64)
    } else if 0x61 <= b <= 0x66 {
        Some((b - 0x57) as u64)
    } else if 0x41 <= b <= 0x46 {
        Some((b - 0x37) as u64)
    } else {
        None
    }
}

/// The hash of a name with one more byte.
pub open spec fn hash_byte(id: u64, b: u8) -> u64 {
    ((id * 223 + b) % (LABELS as int)) as u64
}

/// The letters of a name with one more; more than sixteen are not told apart.
pub open spec fn word_byte(word: u128, b: u8) -> u128 {
    if word < 0x0100_0000_0000_0000_0000_0000_0000_0000 {
        (word * 256 + b) as u128
    } else {
        u128::MAX
    }
}

/// The lexer before the first byte.
pub open spec fn lexer_start() -> Lexer {
    Lexer {
        mode: ScanMode::Between,
        id: 0,
        word: 0,
        need: 0,
        low: 0x80,
        high: 0xbf,
        invalid: false,
        comma: false,
        unknown: false,
        code: 0,
        nested: 0,
        before: 0,
    }
}

/// The lexer in another mode.
pub open spec fn at(l: Lexer, mode: ScanMode) -> Lexer {
    Lexer { mode, ..l }
}

/// The lexer in a mode, with no token yet.
pub open spec fn fresh(l: Lexer, mode: ScanMode) -> Lexer {
    Lexer {
        mode,
        id: 0,
        word: 0,
        need: 0,
        low: 0x80,
        high: 0xbf,
        invalid: false,
        comma: false,
        unknown: false,
        code: 0,
        ..l
    }
}

/// One more byte of a quoted text.
#[verifier::opaque]
pub open spec fn text_byte(l: Lexer, b: u8) -> Lexer {
    let counted = Lexer { id: hash_byte(l.id, b), comma: l.comma || b == 0x2c, ..l };
    if l.need > 0 {
        if l.low <= b <= l.high {
            Lexer { need: (l.need - 1) as u8, low: 0x80, high: 0xbf, ..counted }
        } else {
            Lexer { invalid: true, ..counted }
        }
    } else if b < 0x80 {
        counted
    } else if 0xc2 <= b <= 0xdf {
        Lexer { need: 1, low: 0x80, high: 0xbf, ..counted }
    } else if b == 0xe0 {
        Lexer { need: 2, low: 0xa0, high: 0xbf, ..counted }
    } else if b == 0xed {
        Lexer { need: 2, low: 0x80, high: 0x9f, ..counted }
    } else if 0xe1 <= b <= 0xef {
        Lexer { need: 2, low: 0x80, high: 0xbf, ..counted }
    } else if b == 0xf0 {
        Lexer { need: 3, low: 0x90, high: 0xbf, ..counted }
    } else if 0xf1 <= b <= 0xf3 {
        Lexer { need: 3, low: 0x80, high: 0xbf, ..counted }
    } else if b == 0xf4 {
        Lexer { need: 3, low: 0x80, high: 0x8f, ..counted }
    } else {
        Lexer { invalid: true, ..counted }
    }
}

/// One more character of a quoted text, by its number.
#[verifier::opaque]
pub open spec fn text_char(l: Lexer, c: u64) -> Lexer {
    if c < 0x80 {
        text_byte(l, c as u8)
    } else if c < 0x800 {
        text_byte(text_byte(l, (0xc0 + c / 64) as u8), (0x80 + c % 64) as u8)
    } else if 0xd800 <= c < 0xe000 || c >= 0x11_0000 {
        Lexer { unknown: true, ..l }
    } else if c < 0x1_0000 {
        text_byte(
            text_byte(text_byte(l, (0xe0 + c / 4096) as u8), (0x80 + c / 64 % 64) as u8),
            (0x80 + c % 64) as u8,
        )
    } else {
        text_byte(
            text_byte(
                text_byte(
                    text_byte(l, (0xf0 + c / 262144) as u8),
                    (0x80 + c / 4096 % 64) as u8,
                ),
                (0x80 + c / 64 % 64) as u8,
            ),
            (0x80 + c % 64) as u8,
        )
    }
}

/// The token that a quoted text is.
pub open spec fn text_token(l: Lexer) -> Token {
    if l.unknown {
        Token::Other
    } else {
        Token::Text(l.id, !l.invalid && l.need == 0, l.comma)
    }
}

/// What a byte in a quoted text makes of the lexer; the token where it ends the text.
#[verifier::opaque]
pub open spec fn lex_quote(l: Lexer, b: u8) -> (Lexer, Option<Token>) {
    if b == 0x22 {
        (at(l, ScanMode::Between), Some(text_token(l)))
    } else if b == 0x5c {
        (at(l, ScanMode::Escape), None)
    } else {
        (text_byte(at(l, ScanMode::Quote), b), None)
    }
}

/// What a byte behind a backslash makes of the lexer.
#[verifier::opaque]
pub open spec fn lex_escape(l: Lexer, b: u8) -> Lexer {
    let back = at(l, ScanMode::Quote);
    if b == 0x6e {
        text_byte(back, 0x0a)
    } else if b == 0x72 {
        text_byte(back, 0x0d)
    } else if b == 0x74 {
        text_byte(back, 0x09)
    } else if b == 0x5c || b == 0x22 || b == 0x27 {
        text_byte(back, b)
    } else if b == 0x75 {
        at(l, ScanMode::CodeStart)
    } else {
        match hex_value(b) {
            Some(d) => Lexer { mode: ScanMode::EscapeDigit, code: d, ..l },
            None => Lexer { unknown: true, ..back },
        }
    }
}

/// What a byte in the number of a character makes of the lexer.
#[verifier::opaque]
pub open spec fn lex_code(l: Lexer, b: u8) -> (Lexer, Option<Token>) {
    match hex_value(b) {
        Some(d) => (
            Lexer { mode: ScanMode::Code, code: up_to(l.code * 16 + d, 0x11_0000), ..l },
            None,
        ),
        None => if b == 0x5f && l.mode == ScanMode::Code {
            (l, None)
        } else if b == 0x7d && l.mode == ScanMode::Code {
            (text_char(at(l, ScanMode::Quote), l.code), None)
        } else {
            lex_quote(Lexer { unknown: true, ..l }, b)
        },
    }
}

/// A byte inside a quoted text.
#[verifier::opaque]
pub open spec fn lex_text(l: Lexer, b: u8) -> (Lexer, Option<Token>) {
    let unknown = Lexer { unknown: true, ..l };
    match l.mode {
        ScanMode::Escape => (lex_escape(l, b), None),
        ScanMode::EscapeDigit => match hex_value(b) {
            Some(d) => (text_byte(at(l, ScanMode::Quote), (l.code % 16 * 16 + d) as u8), None),
            None => lex_quote(unknown, b),
        },
        ScanMode::CodeStart => if b == 0x7b {
            (Lexer { mode: ScanMode::CodeOpen, code: 0, ..l }, None)
        } else {
            lex_quote(unknown, b)
        },
        ScanMode::CodeOpen => lex_code(l, b),
        ScanMode::Code => lex_code(l, b),
        _ => lex_quote(l, b),
    }
}

/// What a byte in a comment between `/*` and `*/` makes of the lexer.
#[verifier::opaque]
pub open spec fn lex_block(l: Lexer, b: u8) -> Lexer {
    if l.before == 0x2a && b == 0x2f {
        if l.nested <= 1 {
            Lexer { mode: ScanMode::Between, nested: 0, before: 0, ..l }
        } else {
            Lexer { nested: (l.nested - 1) as u64, before: 0, ..l }
        }
    } else if l.before == 0x2f && b == 0x2a {
        Lexer { nested: up_to(l.nested + 1, LABELS), before: 0, ..l }
    } else {
        Lexer { before: b, ..l }
    }
}

/// What a byte between tokens makes of the lexer; the token where it is one.
#[verifier::opaque]
pub open spec fn lex_between(l: Lexer, b: u8) -> (Lexer, Option<Token>) {
    if b == 0x20 || b == 0x09 || b == 0x0d || b == 0x0a {
        (at(l, ScanMode::Between), None)
    } else if b == 0x22 {
        (fresh(l, ScanMode::Quote), None)
    } else if b == 0x2f {
        (at(l, ScanMode::Slash), None)
    } else if b == 0x2e {
        (at(l, ScanMode::Dot), None)
    } else if b == 0x30 {
        (fresh(l, ScanMode::Zero), None)
    } else if is_decimal(b) {
        (Lexer { id: (b - 0x30) as u64, ..fresh(l, ScanMode::Decimal) }, None)
    } else if is_word(b) {
        (Lexer { id: b as u64, word: b as u128, ..fresh(l, ScanMode::Name) }, None)
    } else {
        (at(l, ScanMode::Between), Some(Token::Mark(b)))
    }
}

/// The token that a word is where it ends, and the mode in which it goes on with a byte.
#[verifier::opaque]
pub open spec fn lex_word(l: Lexer, b: u8) -> Option<Lexer> {
    match l.mode {
        ScanMode::Name => if is_word(b) {
            Some(Lexer { id: hash_byte(l.id, b), word: word_byte(l.word, b), ..l })
        } else {
            None
        },
        ScanMode::Zero => if b == 0x78 {
            Some(at(l, ScanMode::HexStart))
        } else if b == 0x58 {
            Some(at(l, ScanMode::CapitalStart))
        } else {
            lex_digits(l, b)
        },
        ScanMode::Decimal => lex_digits(l, b),
        ScanMode::Grouped => if is_decimal(b) {
            Some(Lexer { id: up_to(l.id * 10 + (b - 0x30), LABELS), ..l })
        } else if b == 0x5f {
            Some(l)
        } else if is_word(b) {
            Some(at(l, ScanMode::Other))
        } else {
            None
        },
        ScanMode::HexStart => match hex_value(b) {
            Some(d) => Some(Lexer { id: d, ..at(l, ScanMode::Hex) }),
            None => if is_word(b) {
                Some(at(l, ScanMode::Other))
            } else {
                None
            },
        },
        ScanMode::Hex => match hex_value(b) {
            Some(d) => Some(Lexer { id: up_to(l.id * 16 + d, LABELS), ..l }),
            None => if b == 0x5f {
                Some(l)
            } else if is_word(b) {
                Some(at(l, ScanMode::Other))
            } else {
                None
            },
        },
        ScanMode::CapitalStart => if hex_value(b) is Some {
            Some(at(l, ScanMode::Capital))
        } else if is_word(b) {
            Some(at(l, ScanMode::Other))
        } else {
            None
        },
        ScanMode::Capital => if hex_value(b) is Some || b == 0x5f {
            Some(l)
        } else if is_word(b) {
            Some(at(l, ScanMode::Other))
        } else {
            None
        },
        ScanMode::Fraction => if is_decimal(b) {
            Some(l)
        } else if b == 0x65 || b == 0x45 {
            Some(at(l, ScanMode::Exponent))
        } else {
            None
        },
        ScanMode::Exponent => if is_decimal(b) {
            Some(at(l, ScanMode::Digits))
        } else if b == 0x2b || b == 0x2d {
            Some(at(l, ScanMode::ExponentSign))
        } else if is_word(b) {
            Some(at(l, ScanMode::Other))
        } else {
            None
        },
        ScanMode::ExponentSign => if is_decimal(b) {
            Some(at(l, ScanMode::Digits))
        } else {
            None
        },
        ScanMode::Digits => if is_decimal(b) {
            Some(l)
        } else {
            None
        },
        _ => if is_word(b) {
            Some(at(l, ScanMode::Other))
        } else {
            None
        },
    }
}

/// How a decimal numeral goes on with a byte.
#[verifier::opaque]
pub open spec fn lex_digits(l: Lexer, b: u8) -> Option<Lexer> {
    if is_decimal(b) {
        Some(
            Lexer { id: up_to(l.id * 10 + (b - 0x30), LABELS), ..at(l, ScanMode::Decimal) },
        )
    } else if b == 0x5f {
        Some(at(l, ScanMode::Grouped))
    } else if b == 0x2e {
        Some(at(l, ScanMode::Fraction))
    } else if b == 0x65 || b == 0x45 {
        Some(at(l, ScanMode::Exponent))
    } else if is_word(b) {
        Some(at(l, ScanMode::Other))
    } else {
        None
    }
}

/// The token that a word is.
pub open spec fn word_token(l: Lexer) -> Token {
    match l.mode {
        ScanMode::Name => Token::Name(l.word, l.id),
        ScanMode::Zero => Token::Numeral(l.id),
        ScanMode::Decimal => Token::Numeral(l.id),
        ScanMode::Grouped => Token::Numeral(l.id),
        ScanMode::Hex => Token::Numeral(l.id),
        ScanMode::Capital => Token::Capital,
        _ => Token::Other,
    }
}

/// A frame before its first token.
pub open spec fn frame_start(kind: FrameKind, in_type: bool) -> Frame {
    Frame {
        kind,
        in_type,
        started: false,
        typed: in_type,
        type_begun: false,
        labelled: false,
        label: LABELS,
        next: 0,
        overflow: false,
        wraps: 0,
        byte: false,
        begun: false,
        first_byte: false,
        mixed: false,
        holds_mixed: false,
        held_mixed: false,
    }
}

/// The scan before the first byte, of values or of a contract.
pub open spec fn scan_start(contract: bool) -> ScanModel {
    ScanModel {
        lexer: lexer_start(),
        frames: seq![frame_start(FrameKind::Other, contract)],
        last: Token::Other,
        depth: 0,
        types: 0,
        comments: 0,
        capital: false,
        overflow: false,
        invalid: false,
        deep: false,
        mixed: false,
        mixed_typed: false,
        comma: false,
        annotated: false,
        lists: false,
    }
}

/// The frame after the end of an element: a field of a record has got its label, and the
/// elements of a vector are compared.
#[verifier::opaque]
pub open spec fn element_end(f: Frame) -> Frame {
    let field = f.started && f.kind == FrameKind::Record;
    let item = f.started && f.kind == FrameKind::Vector && !f.in_type;
    let label = if f.labelled {
        f.label
    } else {
        f.next
    };
    Frame {
        started: false,
        typed: f.in_type,
        type_begun: false,
        labelled: false,
        label: LABELS,
        next: if field && label < LAST_LABEL {
            (label + 1) as u64
        } else {
            f.next
        },
        overflow: f.overflow || field && label == LAST_LABEL,
        wraps: 0,
        byte: false,
        begun: f.begun || item,
        first_byte: if item && !f.begun {
            f.byte
        } else {
            f.first_byte
        },
        mixed: f.mixed || item && f.begun && f.first_byte && !f.byte,
        holds_mixed: false,
        held_mixed: f.held_mixed || f.holds_mixed,
        ..f
    }
}

/// The token is this name.
pub open spec fn is_named(token: Token, name: u128) -> bool {
    token matches Token::Name(word, _) && word == name
}

/// A token that a quoted text can follow in a value.
pub open spec fn takes_text(token: Token) -> bool {
    match token {
        Token::Name(word, _) => word == BLOB || word == OPT || word == SERVICE || word == FUNC
            || word == PRINCIPAL,
        Token::Mark(b) => b == 0x3d || b == 0x2e,
        _ => false,
    }
}

/// A word that makes a value or a type of another one.
pub open spec fn is_wrap(f: Frame, word: u128) -> bool {
    word == OPT || f.typed && word == VEC
}

/// The frame after a token that opens and closes nothing.
#[verifier::opaque]
pub open spec fn frame_token(f: Frame, token: Token) -> Frame {
    let begun = Frame {
        started: true,
        type_begun: f.type_begun || f.typed,
        byte: f.typed && !f.in_type && !f.type_begun && (token matches Token::Name(word, _)
            && word == NAT8),
        ..f
    };
    match token {
        Token::Name(word, _) => if is_wrap(f, word) {
            Frame { wraps: up_to(f.wraps + 1, LABELS), ..begun }
        } else {
            begun
        },
        _ => begun,
    }
}

/// The label that a token is, or [`LABELS`].
pub open spec fn token_label(token: Token) -> u64 {
    match token {
        Token::Name(_, id) => id,
        Token::Numeral(id) => id,
        Token::Text(id, _, _) => id,
        _ => LABELS,
    }
}

/// The frame after a colon or an equals sign that stands behind a label.
pub open spec fn frame_label(f: Frame, last: Token) -> Frame {
    if f.labelled {
        f
    } else {
        Frame { labelled: true, label: token_label(last), ..f }
    }
}

/// What the brace behind a token opens.
pub open spec fn opened_kind(last: Token) -> FrameKind {
    match last {
        Token::Name(word, _) => if word == RECORD {
            FrameKind::Record
        } else if word == VEC {
            FrameKind::Vector
        } else if word == VARIANT {
            FrameKind::Variant
        } else {
            FrameKind::Other
        },
        _ => FrameKind::Other,
    }
}

/// The scan with another innermost frame.
#[verifier::opaque]
pub open spec fn with_top(s: ScanModel, f: Frame) -> ScanModel {
    ScanModel { frames: s.frames.update(s.frames.len() - 1, f), ..s }
}

/// One level deeper.
pub open spec fn deeper(s: ScanModel) -> ScanModel {
    ScanModel {
        depth: up_to(s.depth + 1, LABELS),
        deep: s.deep || s.depth >= MAX_DEPTH,
        types: up_to(s.types + 1, LABELS),
        ..s
    }
}

/// A brace or a parenthesis opens.
#[verifier::opaque]
pub open spec fn scan_open(s: ScanModel, kind: FrameKind) -> ScanModel {
    let f = s.frames.last();
    let outer = Frame { started: true, type_begun: f.type_begun || f.typed, byte: false, ..f };
    let into = deeper(with_top(s, outer));
    ScanModel { frames: into.frames.push(frame_start(kind, f.typed)), ..into }
}

/// A brace or a parenthesis closes. A value in parentheses is what stands in them.
#[verifier::opaque]
pub open spec fn scan_close(s: ScanModel, brace: bool) -> ScanModel {
    let inner = s.frames.last();
    let f = element_end(inner);
    let left = ScanModel {
        depth: less(s.depth, inner.wraps),
        overflow: s.overflow || f.overflow,
        mixed: s.mixed || f.mixed,
        ..s
    };
    if s.frames.len() < 2 {
        with_top(left, f)
    } else {
        let outer = s.frames[s.frames.len() - 2];
        let alone = !brace && !f.in_type && outer.wraps == 0;
        ScanModel {
            depth: less(left.depth, 1),
            frames: s.frames.drop_last().update(
                s.frames.len() - 2,
                Frame {
                    byte: alone && inner.byte,
                    holds_mixed: outer.holds_mixed || f.mixed || f.held_mixed,
                    ..outer
                },
            ),
            ..left
        }
    }
}

/// An element ends.
#[verifier::opaque]
pub open spec fn scan_next(s: ScanModel) -> ScanModel {
    let f = s.frames.last();
    with_top(ScanModel { depth: less(s.depth, f.wraps), ..s }, element_end(f))
}

/// A colon: behind a label in a type, and before the type of a value.
#[verifier::opaque]
pub open spec fn scan_colon(s: ScanModel) -> ScanModel {
    let f = s.frames.last();
    if f.in_type {
        with_top(s, frame_label(f, s.last))
    } else {
        with_top(
            ScanModel {
                annotated: true,
                mixed_typed: s.mixed_typed || f.holds_mixed,
                ..s
            },
            Frame { typed: true, type_begun: false, byte: false, ..f },
        )
    }
}

/// What a sign does to the scan.
#[verifier::opaque]
pub open spec fn scan_mark(s: ScanModel, b: u8) -> ScanModel {
    let f = s.frames.last();
    if b == 0x7b {
        scan_open(s, opened_kind(s.last))
    } else if b == 0x28 {
        scan_open(s, FrameKind::Other)
    } else if b == 0x7d {
        scan_close(s, true)
    } else if b == 0x29 {
        scan_close(s, false)
    } else if b == 0x3b || b == 0x2c {
        scan_next(s)
    } else if b == 0x3a {
        scan_colon(s)
    } else if b == 0x3d {
        if f.in_type {
            ScanModel { types: up_to(s.types + 1, LABELS), ..s }
        } else {
            with_top(s, frame_label(f, s.last))
        }
    } else {
        with_top(s, frame_token(f, Token::Mark(b)))
    }
}

/// What a name does to the scan, in an element that was `f`.
#[verifier::opaque]
pub open spec fn scan_name(s: ScanModel, f: Frame, word: u128) -> ScanModel {
    let list = f.typed && (word == VEC || word == BLOB || word == SERVICE);
    let known = ScanModel { lists: s.lists || list, ..s };
    if is_wrap(f, word) {
        deeper(known)
    } else {
        known
    }
}

/// What a quoted text does to the scan, in an element that was `f`.
#[verifier::opaque]
pub open spec fn scan_text(s: ScanModel, f: Frame, valid: bool, comma: bool) -> ScanModel {
    let first = !f.started && s.frames.len() > 1;
    let value = !f.typed && takes_text(s.last);
    let label = f.in_type && !f.started && f.kind == FrameKind::Variant;
    ScanModel {
        invalid: s.invalid || !valid && !first && !value && !is_named(s.last, IMPORT),
        comma: s.comma || comma && label,
        ..s
    }
}

/// The scan with its last token.
pub open spec fn with_last(s: ScanModel, token: Token) -> ScanModel {
    ScanModel { last: token, comments: 0, ..s }
}

/// A numeral with a capital `X` is taken for a number where this token follows it. Before
/// the `=` of a field, and alone in a variant, it is taken for a label and refused.
#[verifier::opaque]
pub open spec fn scan_number(s: ScanModel, token: Token) -> ScanModel {
    let f = s.frames.last();
    let ends = token == Token::Mark(0x2c) || token == Token::Mark(0x3b) || token == Token::Mark(
        0x29,
    ) || token == Token::Mark(0x7d) || token == Token::Mark(0x3a);
    let number = !f.typed && (f.labelled || f.kind != FrameKind::Variant);
    ScanModel { capital: s.capital || s.last == Token::Capital && ends && number, ..s }
}

/// A comment begins.
#[verifier::opaque]
pub open spec fn scan_comment(s: ScanModel, l: Lexer) -> ScanModel {
    ScanModel {
        lexer: l,
        comments: up_to(s.comments + 1, LABELS),
        deep: s.deep || s.comments >= MAX_COMMENTS,
        ..s
    }
}

/// A name among the tokens of an element.
#[verifier::opaque]
pub open spec fn scan_named(s: ScanModel, token: Token, word: u128) -> ScanModel {
    let f = s.frames.last();
    scan_name(with_top(s, frame_token(f, token)), f, word)
}

/// A quoted text among the tokens of an element.
#[verifier::opaque]
pub open spec fn scan_quoted(s: ScanModel, token: Token, valid: bool, comma: bool) -> ScanModel {
    let f = s.frames.last();
    scan_text(with_top(s, frame_token(f, token)), f, valid, comma)
}

/// Another token of an element.
#[verifier::opaque]
pub open spec fn scan_plain(s: ScanModel, token: Token) -> ScanModel {
    with_top(s, frame_token(s.frames.last(), token))
}

/// The scan after a token.
#[verifier::opaque]
pub open spec fn scan_token(s: ScanModel, token: Token) -> ScanModel {
    let seen = scan_number(s, token);
    let after = match token {
        Token::Mark(b) => scan_mark(seen, b),
        Token::Name(word, _) => scan_named(seen, token, word),
        Token::Text(_, valid, comma) => scan_quoted(seen, token, valid, comma),
        _ => scan_plain(seen, token),
    };
    with_last(after, token)
}

/// The scan with its lexer at `l`.
pub open spec fn with_lexer(s: ScanModel, l: Lexer) -> ScanModel {
    ScanModel { lexer: l, ..s }
}

/// The scan after what the lexer made of a byte.
pub open spec fn scan_lexed(s: ScanModel, lexed: (Lexer, Option<Token>)) -> ScanModel {
    match lexed.1 {
        Some(token) => scan_token(with_lexer(s, lexed.0), token),
        None => with_lexer(s, lexed.0),
    }
}

/// A byte between tokens.
#[verifier::opaque]
pub open spec fn scan_between(s: ScanModel, b: u8) -> ScanModel {
    scan_lexed(s, lex_between(s.lexer, b))
}

/// A byte in or behind a word.
#[verifier::opaque]
pub open spec fn scan_word(s: ScanModel, b: u8) -> ScanModel {
    match lex_word(s.lexer, b) {
        Some(l) => with_lexer(s, l),
        None => scan_between(scan_token(s, word_token(s.lexer)), b),
    }
}

/// The scan after one more byte.
#[verifier::opaque]
pub open spec fn scan_step(s: ScanModel, b: u8) -> ScanModel {
    let l = s.lexer;
    match l.mode {
        ScanMode::Between => scan_between(s, b),
        ScanMode::Slash => if b == 0x2f {
            scan_comment(s, at(l, ScanMode::Line))
        } else if b == 0x2a {
            scan_comment(s, Lexer { mode: ScanMode::Block, nested: 1, before: 0, ..l })
        } else {
            scan_between(scan_token(s, Token::Other), b)
        },
        ScanMode::Line => if b == 0x0a {
            with_lexer(s, at(l, ScanMode::Between))
        } else {
            s
        },
        ScanMode::Block => with_lexer(s, lex_block(l, b)),
        ScanMode::Dot => if is_decimal(b) {
            with_lexer(s, at(l, ScanMode::Digits))
        } else {
            scan_between(scan_token(s, Token::Mark(0x2e)), b)
        },
        ScanMode::Quote => scan_lexed(s, lex_text(l, b)),
        ScanMode::Escape => scan_lexed(s, lex_text(l, b)),
        ScanMode::EscapeDigit => scan_lexed(s, lex_text(l, b)),
        ScanMode::CodeStart => scan_lexed(s, lex_text(l, b)),
        ScanMode::CodeOpen => scan_lexed(s, lex_text(l, b)),
        ScanMode::Code => scan_lexed(s, lex_text(l, b)),
        _ => scan_word(s, b),
    }
}

/// The scan after a byte string.
pub open spec fn scan_bytes(contract: bool, bytes: Seq<u8>) -> ScanModel
    decreases bytes.len(),
{
    if bytes.len() == 0 {
        scan_start(contract)
    } else {
        scan_step(scan_bytes(contract, bytes.drop_last()), bytes.last())
    }
}

/// The scan after a text of values.
pub open spec fn scan_values(text: Seq<char>) -> ScanModel {
    scan_bytes(false, encode_utf8(text))
}

/// The scan after a contract.
pub open spec fn scan_contract(text: Seq<char>) -> ScanModel {
    scan_bytes(true, encode_utf8(text))
}

/// A text of values that can be parsed.
pub open spec fn are_values_readable(text: Seq<char>) -> bool {
    let s = scan_values(text);
    !s.capital && !s.overflow && !s.invalid && !s.deep && !s.mixed_typed
}

/// A text of values that can be parsed and fitted to types.
pub open spec fn are_arguments_readable(text: Seq<char>) -> bool {
    are_values_readable(text) && !scan_values(text).mixed
}

/// A type stands behind a value of a text.
pub open spec fn is_annotated(text: Seq<char>) -> bool {
    scan_values(text).annotated
}

/// A type that stands behind a value of a text is made of lists or services.
pub open spec fn has_list_types(text: Seq<char>) -> bool {
    scan_values(text).lists
}

/// A contract that can be parsed.
pub open spec fn is_contract_readable(text: Seq<char>) -> bool {
    let s = scan_contract(text);
    !s.overflow && !s.invalid && !s.deep && s.types <= MAX_TYPES
}

/// A contract that can be parsed and that replies can be decoded by.
pub open spec fn is_contract_decodable(text: Seq<char>) -> bool {
    is_contract_readable(text) && !scan_contract(text).comma
}

fn word_like(b: u8) -> (r: bool)
    ensures
        r == is_word(b),
{
    (0x30 <= b && b <= 0x39) || (0x41 <= b && b <= 0x5a) || (0x61 <= b && b <= 0x7a) || b == 0x5f
}

fn decimal(b: u8) -> (r: bool)
    ensures
        r == is_decimal(b),
{
    0x30 <= b && b <= 0x39
}

fn hex_digit(b: u8) -> (r: Option<u64>)
    ensures
        r == hex_value(b),
        r matches Some(d) ==> d < 16,
{
    if 0x30 <= b && b <= 0x39 {
        Some((b - 0x30) as u64)
    } else if 0x61 <= b && b <= 0x66 {
        Some((b - 0x57) as u64)
    } else if 0x41 <= b && b <= 0x46 {
        Some((b - 0x37) as u64)
    } else {
        None
    }
}

fn cap(n: u64, limit: u64) -> (r: u64)
    ensures
        r == up_to(n as int, limit),
        r <= limit,
{
    if n < limit {
        n
    } else {
        limit
    }
}

fn one_more(n: u64) -> (r: u64)
    ensures
        r == up_to(n + 1, LABELS),
        r <= LABELS,
{
    if n < LABELS {
        cap(n + 1, LABELS)
    } else {
        LABELS
    }
}

fn minus(n: u64, k: u64) -> (r: u64)
    ensures
        r == less(n, k),
{
    if n >= k {
        n - k
    } else {
        0
    }
}

impl Lexer {
    /// The numbers of the lexer are in their ranges.
    pub open spec fn in_range(self) -> bool {
        self.id <= LABELS && self.code <= 0x11_0000
    }

    fn at(self, mode: ScanMode) -> (r: Lexer)
        ensures
            r == at(self, mode),
    {
        Lexer { mode, ..self }
    }

    fn fresh(self, mode: ScanMode) -> (r: Lexer)
        ensures
            r == fresh(self, mode),
            r.in_range(),
    {
        Lexer {
            mode,
            id: 0,
            word: 0,
            need: 0,
            low: 0x80,
            high: 0xbf,
            invalid: false,
            comma: false,
            unknown: false,
            code: 0,
            ..self
        }
    }

    fn hashed(self, b: u8) -> (r: u64)
        requires
            self.in_range(),
        ensures
            r == hash_byte(self.id, b),
            r <= LABELS,
    {
        (self.id * 223 + b as u64) % LABELS
    }

    fn text_byte(self, b: u8) -> (r: Lexer)
        requires
            self.in_range(),
        ensures
            r == text_byte(self, b),
            r.in_range(),
    {
        reveal(text_byte);
        let counted = Lexer { id: self.hashed(b), comma: self.comma || b == 0x2c, ..self };
        if self.need > 0 {
            if self.low <= b && b <= self.high {
                Lexer { need: self.need - 1, low: 0x80, high: 0xbf, ..counted }
            } else {
                Lexer { invalid: true, ..counted }
            }
        } else if b < 0x80 {
            counted
        } else if 0xc2 <= b && b <= 0xdf {
            Lexer { need: 1, low: 0x80, high: 0xbf, ..counted }
        } else if b == 0xe0 {
            Lexer { need: 2, low: 0xa0, high: 0xbf, ..counted }
        } else if b == 0xed {
            Lexer { need: 2, low: 0x80, high: 0x9f, ..counted }
        } else if 0xe1 <= b && b <= 0xef {
            Lexer { need: 2, low: 0x80, high: 0xbf, ..counted }
        } else if b == 0xf0 {
            Lexer { need: 3, low: 0x90, high: 0xbf, ..counted }
        } else if 0xf1 <= b && b <= 0xf3 {
            Lexer { need: 3, low: 0x80, high: 0xbf, ..counted }
        } else if b == 0xf4 {
            Lexer { need: 3, low: 0x80, high: 0x8f, ..counted }
        } else {
            Lexer { invalid: true, ..counted }
        }
    }

    fn text_char(self, c: u64) -> (r: Lexer)
        requires
            self.in_range(),
        ensures
            r == text_char(self, c),
            r.in_range(),
    {
        reveal(text_char);
        if c < 0x80 {
            self.text_byte(c as u8)
        } else if c < 0x800 {
            self.text_byte((0xc0 + c / 64) as u8).text_byte((0x80 + c % 64) as u8)
        } else if (0xd800 <= c && c < 0xe000) || c >= 0x11_0000 {
            Lexer { unknown: true, ..self }
        } else if c < 0x1_0000 {
            self.text_byte((0xe0 + c / 4096) as u8).text_byte(
                (0x80 + c / 64 % 64) as u8,
            ).text_byte((0x80 + c % 64) as u8)
        } else {
            self.text_byte((0xf0 + c / 262144) as u8).text_byte(
                (0x80 + c / 4096 % 64) as u8,
            ).text_byte((0x80 + c / 64 % 64) as u8).text_byte((0x80 + c % 64) as u8)
        }
    }

    fn quote(self, b: u8) -> (r: (Lexer, Option<Token>))
        requires
            self.in_range(),
        ensures
            r == lex_quote(self, b),
            r.0.in_range(),
    {
        reveal(lex_quote);
        if b == 0x22 {
            let token = if self.unknown {
                Token::Other
            } else {
                Token::Text(self.id, !self.invalid && self.need == 0, self.comma)
            };
            (self.at(ScanMode::Between), Some(token))
        } else if b == 0x5c {
            (self.at(ScanMode::Escape), None)
        } else {
            (self.at(ScanMode::Quote).text_byte(b), None)
        }
    }

    fn escape(self, b: u8) -> (r: Lexer)
        requires
            self.in_range(),
        ensures
            r == lex_escape(self, b),
            r.in_range(),
    {
        reveal(lex_escape);
        let back = self.at(ScanMode::Quote);
        if b == 0x6e {
            back.text_byte(0x0a)
        } else if b == 0x72 {
            back.text_byte(0x0d)
        } else if b == 0x74 {
            back.text_byte(0x09)
        } else if b == 0x5c || b == 0x22 || b == 0x27 {
            back.text_byte(b)
        } else if b == 0x75 {
            self.at(ScanMode::CodeStart)
        } else {
            match hex_digit(b) {
                Some(d) => Lexer { mode: ScanMode::EscapeDigit, code: d, ..self },
                None => Lexer { unknown: true, ..back },
            }
        }
    }

    fn code(self, b: u8) -> (r: (Lexer, Option<Token>))
        requires
            self.in_range(),
        ensures
            r == lex_code(self, b),
            r.0.in_range(),
    {
        reveal(lex_code);
        match hex_digit(b) {
            Some(d) => (
                Lexer { mode: ScanMode::Code, code: cap(self.code * 16 + d, 0x11_0000), ..self },
                None,
            ),
            None => if b == 0x5f && self.mode == ScanMode::Code {
                (self, None)
            } else if b == 0x7d && self.mode == ScanMode::Code {
                (self.at(ScanMode::Quote).text_char(self.code), None)
            } else {
                Lexer { unknown: true, ..self }.quote(b)
            },
        }
    }

    fn text(self, b: u8) -> (r: (Lexer, Option<Token>))
        requires
            self.in_range(),
        ensures
            r == lex_text(self, b),
            r.0.in_range(),
    {
        reveal(lex_text);
        let unknown = Lexer { unknown: true, ..self };
        match self.mode {
            ScanMode::Escape => (self.escape(b), None),
            ScanMode::EscapeDigit => match hex_digit(b) {
                Some(d) => (
                    self.at(ScanMode::Quote).text_byte((self.code % 16 * 16 + d) as u8),
                    None,
                ),
                None => unknown.quote(b),
            },
            ScanMode::CodeStart => if b == 0x7b {
                (Lexer { mode: ScanMode::CodeOpen, code: 0, ..self }, None)
            } else {
                unknown.quote(b)
            },
            ScanMode::CodeOpen => self.code(b),
            ScanMode::Code => self.code(b),
            _ => self.quote(b),
        }
    }

    fn block(self, b: u8) -> (r: Lexer)
        requires
            self.in_range(),
        ensures
            r == lex_block(self, b),
            r.in_range(),
    {
        reveal(lex_block);
        if self.before == 0x2a && b == 0x2f {
            if self.nested <= 1 {
                Lexer { mode: ScanMode::Between, nested: 0, before: 0, ..self }
            } else {
                Lexer { nested: self.nested - 1, before: 0, ..self }
            }
        } else if self.before == 0x2f && b == 0x2a {
            Lexer { nested: one_more(self.nested), before: 0, ..self }
        } else {
            Lexer { before: b, ..self }
        }
    }

    fn between(self, b: u8) -> (r: (Lexer, Option<Token>))
        requires
            self.in_range(),
        ensures
            r == lex_between(self, b),
            r.0.in_range(),
    {
        reveal(lex_between);
        if b == 0x20 || b == 0x09 || b == 0x0d || b == 0x0a {
            (self.at(ScanMode::Between), None)
        } else if b == 0x22 {
            (self.fresh(ScanMode::Quote), None)
        } else if b == 0x2f {
            (self.at(ScanMode::Slash), None)
        } else if b == 0x2e {
            (self.at(ScanMode::Dot), None)
        } else if b == 0x30 {
            (self.fresh(ScanMode::Zero), None)
        } else if decimal(b) {
            (Lexer { id: (b - 0x30) as u64, ..self.fresh(ScanMode::Decimal) }, None)
        } else if word_like(b) {
            (Lexer { id: b as u64, word: b as u128, ..self.fresh(ScanMode::Name) }, None)
        } else {
            (self.at(ScanMode::Between), Some(Token::Mark(b)))
        }
    }

    fn or_other(self, b: u8) -> (r: Option<Lexer>)
        requires
            self.in_range(),
        ensures
            r == (if is_word(b) {
                Some(at(self, ScanMode::Other))
            } else {
                None
            }),
    {
        if word_like(b) {
            Some(self.at(ScanMode::Other))
        } else {
            None
        }
    }

    fn digits(self, b: u8) -> (r: Option<Lexer>)
        requires
            self.in_range(),
        ensures
            r == lex_digits(self, b),
            r matches Some(l) ==> l.in_range(),
    {
        reveal(lex_digits);
        if decimal(b) {
            Some(
                Lexer {
                    id: cap(self.id * 10 + (b - 0x30) as u64, LABELS),
                    ..self.at(ScanMode::Decimal)
                },
            )
        } else if b == 0x5f {
            Some(self.at(ScanMode::Grouped))
        } else if b == 0x2e {
            Some(self.at(ScanMode::Fraction))
        } else if b == 0x65 || b == 0x45 {
            Some(self.at(ScanMode::Exponent))
        } else {
            self.or_other(b)
        }
    }

    fn word(self, b: u8) -> (r: Option<Lexer>)
        requires
            self.in_range(),
        ensures
            r == lex_word(self, b),
            r matches Some(l) ==> l.in_range(),
    {
        reveal(lex_word);
        match self.mode {
            ScanMode::Name => if word_like(b) {
                let word: u128 = if self.word < 0x0100_0000_0000_0000_0000_0000_0000_0000 {
                    self.word * 256 + b as u128
                } else {
                    u128::MAX
                };
                Some(Lexer { id: self.hashed(b), word, ..self })
            } else {
                None
            },
            ScanMode::Zero => if b == 0x78 {
                Some(self.at(ScanMode::HexStart))
            } else if b == 0x58 {
                Some(self.at(ScanMode::CapitalStart))
            } else {
                self.digits(b)
            },
            ScanMode::Decimal => self.digits(b),
            ScanMode::Grouped => if decimal(b) {
                Some(Lexer { id: cap(self.id * 10 + (b - 0x30) as u64, LABELS), ..self })
            } else if b == 0x5f {
                Some(self)
            } else {
                self.or_other(b)
            },
            ScanMode::HexStart => match hex_digit(b) {
                Some(d) => Some(Lexer { id: d, ..self.at(ScanMode::Hex) }),
                None => self.or_other(b),
            },
            ScanMode::Hex => match hex_digit(b) {
                Some(d) => Some(Lexer { id: cap(self.id * 16 + d, LABELS), ..self }),
                None => if b == 0x5f {
                    Some(self)
                } else {
                    self.or_other(b)
                },
            },
            ScanMode::CapitalStart => if hex_digit(b).is_some() {
                Some(self.at(ScanMode::Capital))
            } else {
                self.or_other(b)
            },
            ScanMode::Capital => if hex_digit(b).is_some() || b == 0x5f {
                Some(self)
            } else {
                self.or_other(b)
            },
            ScanMode::Fraction => if decimal(b) {
                Some(self)
            } else if b == 0x65 || b == 0x45 {
                Some(self.at(ScanMode::Exponent))
            } else {
                None
            },
            ScanMode::Exponent => if decimal(b) {
                Some(self.at(ScanMode::Digits))
            } else if b == 0x2b || b == 0x2d {
                Some(self.at(ScanMode::ExponentSign))
            } else {
                self.or_other(b)
            },
            ScanMode::ExponentSign => if decimal(b) {
                Some(self.at(ScanMode::Digits))
            } else {
                None
            },
            ScanMode::Digits => if decimal(b) {
                Some(self)
            } else {
                None
            },
            _ => self.or_other(b),
        }
    }

    fn word_token(self) -> (r: Token)
        ensures
            r == word_token(self),
    {
        match self.mode {
            ScanMode::Name => Token::Name(self.word, self.id),
            ScanMode::Zero => Token::Numeral(self.id),
            ScanMode::Decimal => Token::Numeral(self.id),
            ScanMode::Grouped => Token::Numeral(self.id),
            ScanMode::Hex => Token::Numeral(self.id),
            ScanMode::Capital => Token::Capital,
            _ => Token::Other,
        }
    }
}

impl Token {
    fn is_name(self, name: u128) -> (r: bool)
        ensures
            r == is_named(self, name),
    {
        match self {
            Token::Name(word, _) => word == name,
            _ => false,
        }
    }

    fn takes_text(self) -> (r: bool)
        ensures
            r == takes_text(self),
    {
        match self {
            Token::Name(word, _) => word == BLOB || word == OPT || word == SERVICE || word == FUNC
                || word == PRINCIPAL,
            Token::Mark(b) => b == 0x3d || b == 0x2e,
            _ => false,
        }
    }

    fn label(self) -> (r: u64)
        ensures
            r == token_label(self),
    {
        match self {
            Token::Name(_, id) => id,
            Token::Numeral(id) => id,
            Token::Text(id, _, _) => id,
            _ => LABELS,
        }
    }

    fn opened_kind(self) -> (r: FrameKind)
        ensures
            r == opened_kind(self),
    {
        match self {
            Token::Name(word, _) => if word == RECORD {
                FrameKind::Record
            } else if word == VEC {
                FrameKind::Vector
            } else if word == VARIANT {
                FrameKind::Variant
            } else {
                FrameKind::Other
            },
            _ => FrameKind::Other,
        }
    }
}

impl Frame {
    fn start(kind: FrameKind, in_type: bool) -> (r: Frame)
        ensures
            r == frame_start(kind, in_type),
    {
        Frame {
            kind,
            in_type,
            started: false,
            typed: in_type,
            type_begun: false,
            labelled: false,
            label: LABELS,
            next: 0,
            overflow: false,
            wraps: 0,
            byte: false,
            begun: false,
            first_byte: false,
            mixed: false,
            holds_mixed: false,
            held_mixed: false,
        }
    }

    fn element_end(self) -> (r: Frame)
        ensures
            r == element_end(self),
    {
        reveal(element_end);
        let field = self.started && self.kind == FrameKind::Record;
        let item = self.started && self.kind == FrameKind::Vector && !self.in_type;
        let label: u64 = if self.labelled {
            self.label
        } else {
            self.next
        };
        let next: u64 = if field && label < LAST_LABEL {
            label + 1
        } else {
            self.next
        };
        let first_byte = if item && !self.begun {
            self.byte
        } else {
            self.first_byte
        };
        Frame {
            started: false,
            typed: self.in_type,
            type_begun: false,
            labelled: false,
            label: LABELS,
            next,
            overflow: self.overflow || (field && label == LAST_LABEL),
            wraps: 0,
            byte: false,
            begun: self.begun || item,
            first_byte,
            mixed: self.mixed || (item && self.begun && self.first_byte && !self.byte),
            holds_mixed: false,
            held_mixed: self.held_mixed || self.holds_mixed,
            ..self
        }
    }

    fn is_wrap(self, word: u128) -> (r: bool)
        ensures
            r == is_wrap(self, word),
    {
        word == OPT || (self.typed && word == VEC)
    }

    fn token(self, token: Token) -> (r: Frame)
        ensures
            r == frame_token(self, token),
    {
        reveal(frame_token);
        let begun = Frame {
            started: true,
            type_begun: self.type_begun || self.typed,
            byte: self.typed && !self.in_type && !self.type_begun && token.is_name(NAT8),
            ..self
        };
        match token {
            Token::Name(word, _) => if self.is_wrap(word) {
                Frame { wraps: one_more(self.wraps), ..begun }
            } else {
                begun
            },
            _ => begun,
        }
    }

    fn labelled(self, last: Token) -> (r: Frame)
        ensures
            r == frame_label(self, last),
    {
        if self.labelled {
            self
        } else {
            Frame { labelled: true, label: last.label(), ..self }
        }
    }
}

impl ScanModel {
    /// The lexer is in range, and there is a frame.
    pub open spec fn sound(self) -> bool {
        self.lexer.in_range() && self.frames.len() > 0
    }
}

impl Scan {
    fn start(contract: bool) -> (r: Scan)
        ensures
            r@ == scan_start(contract),
            r@.sound(),
    {
        let mut frames: Vec<Frame> = Vec::new();
        frames.push(Frame::start(FrameKind::Other, contract));
        assert(frames@ =~= seq![frame_start(FrameKind::Other, contract)]);
        let lexer = Lexer {
            mode: ScanMode::Between,
            id: 0,
            word: 0,
            need: 0,
            low: 0x80,
            high: 0xbf,
            invalid: false,
            comma: false,
            unknown: false,
            code: 0,
            nested: 0,
            before: 0,
        };
        Scan {
            lexer,
            frames,
            last: Token::Other,
            depth: 0,
            types: 0,
            comments: 0,
            capital: false,
            overflow: false,
            invalid: false,
            deep: false,
            mixed: false,
            mixed_typed: false,
            comma: false,
            annotated: false,
            lists: false,
        }
    }

    fn top(&self) -> (f: Frame)
        requires
            self@.sound(),
        ensures
            f == self@.frames.last(),
    {
        self.frames[self.frames.len() - 1]
    }

    fn set_top(&mut self, f: Frame)
        requires
            old(self)@.sound(),
        ensures
            final(self)@ == with_top(old(self)@, f),
            final(self)@.sound(),
    {
        reveal(with_top);
        let n = self.frames.len();
        self.frames.set(n - 1, f);
    }

    fn deepen(&mut self)
        requires
            old(self)@.sound(),
        ensures
            final(self)@ == deeper(old(self)@),
            final(self)@.sound(),
    {
        self.deep = self.deep || self.depth >= MAX_DEPTH;
        self.depth = one_more(self.depth);
        self.types = one_more(self.types);
    }

    fn open(&mut self, kind: FrameKind)
        requires
            old(self)@.sound(),
        ensures
            final(self)@ == scan_open(old(self)@, kind),
            final(self)@.sound(),
    {
        reveal(scan_open);
        let f = self.top();
        self.set_top(
            Frame { started: true, type_begun: f.type_begun || f.typed, byte: false, ..f },
        );
        self.deepen();
        self.frames.push(Frame::start(kind, f.typed));
    }

    fn close(&mut self, brace: bool)
        requires
            old(self)@.sound(),
        ensures
            final(self)@ == scan_close(old(self)@, brace),
            final(self)@.sound(),
    {
        reveal(with_top);
        reveal(scan_close);
        let ghost s = self@;
        let inner = self.top();
        let f = inner.element_end();
        self.depth = minus(self.depth, inner.wraps);
        self.overflow = self.overflow || f.overflow;
        self.mixed = self.mixed || f.mixed;
        if self.frames.len() < 2 {
            self.set_top(f);
        } else {
            let _ = self.frames.pop();
            assert(self.frames@ =~= s.frames.drop_last());
            let outer = self.top();
            assert(outer == s.frames[s.frames.len() - 2]);
            let alone = !brace && !f.in_type && outer.wraps == 0;
            self.depth = minus(self.depth, 1);
            self.set_top(
                Frame {
                    byte: alone && inner.byte,
                    holds_mixed: outer.holds_mixed || f.mixed || f.held_mixed,
                    ..outer
                },
            );
        }
    }

    fn next(&mut self)
        requires
            old(self)@.sound(),
        ensures
            final(self)@ == scan_next(old(self)@),
            final(self)@.sound(),
    {
        reveal(scan_next);
        let f = self.top();
        self.depth = minus(self.depth, f.wraps);
        self.set_top(f.element_end());
    }

    fn colon(&mut self)
        requires
            old(self)@.sound(),
        ensures
            final(self)@ == scan_colon(old(self)@),
            final(self)@.sound(),
    {
        reveal(scan_colon);
        let f = self.top();
        if f.in_type {
            self.set_top(f.labelled(self.last));
        } else {
            self.annotated = true;
            self.mixed_typed = self.mixed_typed || f.holds_mixed;
            self.set_top(Frame { typed: true, type_begun: false, byte: false, ..f });
        }
    }

    fn mark(&mut self, b: u8)
        requires
            old(self)@.sound(),
        ensures
            final(self)@ == scan_mark(old(self)@, b),
            final(self)@.sound(),
    {
        reveal(scan_mark);
        let f = self.top();
        if b == 0x7b {
            self.open(self.last.opened_kind());
        } else if b == 0x28 {
            self.open(FrameKind::Other);
        } else if b == 0x7d {
            self.close(true);
        } else if b == 0x29 {
            self.close(false);
        } else if b == 0x3b || b == 0x2c {
            self.next();
        } else if b == 0x3a {
            self.colon();
        } else if b == 0x3d {
            if f.in_type {
                self.types = one_more(self.types);
            } else {
                self.set_top(f.labelled(self.last));
            }
        } else {
            self.set_top(f.token(Token::Mark(b)));
        }
    }

    fn name(&mut self, f: Frame, word: u128)
        requires
            old(self)@.sound(),
        ensures
            final(self)@ == scan_name(old(self)@, f, word),
            final(self)@.sound(),
    {
        reveal(scan_name);
        let list = f.typed && (word == VEC || word == BLOB || word == SERVICE);
        self.lists = self.lists || list;
        if f.is_wrap(word) {
            self.deepen();
        }
    }

    fn text(&mut self, f: Frame, valid: bool, comma: bool)
        requires
            old(self)@.sound(),
        ensures
            final(self)@ == scan_text(old(self)@, f, valid, comma),
            final(self)@.sound(),
    {
        reveal(scan_text);
        let first = !f.started && self.frames.len() > 1;
        let value = !f.typed && self.last.takes_text();
        let label = f.in_type && !f.started && f.kind == FrameKind::Variant;
        self.invalid = self.invalid || (!valid && !first && !value && !self.last.is_name(IMPORT));
        self.comma = self.comma || (comma && label);
    }

    fn number(&mut self, token: Token)
        requires
            old(self)@.sound(),
        ensures
            final(self)@ == scan_number(old(self)@, token),
            final(self)@.sound(),
    {
        reveal(scan_number);
        let f = self.top();
        let ends = token == Token::Mark(0x2c) || token == Token::Mark(0x3b) || token
            == Token::Mark(0x29) || token == Token::Mark(0x7d) || token == Token::Mark(0x3a);
        let number = !f.typed && (f.labelled || f.kind != FrameKind::Variant);
        self.capital = self.capital || (self.last == Token::Capital && ends && number);
    }

    fn comment(&mut self, l: Lexer)
        requires
            old(self)@.sound(),
            l.in_range(),
        ensures
            final(self)@ == scan_comment(old(self)@, l),
            final(self)@.sound(),
    {
        reveal(scan_comment);
        self.lexer = l;
        self.deep = self.deep || self.comments >= MAX_COMMENTS;
        self.comments = one_more(self.comments);
    }

    fn set_last(&mut self, token: Token)
        requires
            old(self)@.sound(),
        ensures
            final(self)@ == with_last(old(self)@, token),
            final(self)@.sound(),
    {
        self.last = token;
        self.comments = 0;
    }

    fn set_lexer(&mut self, l: Lexer)
        requires
            old(self)@.sound(),
            l.in_range(),
        ensures
            final(self)@ == with_lexer(old(self)@, l),
            final(self)@.sound(),
    {
        self.lexer = l;
    }

    fn named(&mut self, token: Token, word: u128)
        requires
            old(self)@.sound(),
        ensures
            final(self)@ == scan_named(old(self)@, token, word),
            final(self)@.sound(),
    {
        reveal(scan_named);
        let f = self.top();
        self.set_top(f.token(token));
        self.name(f, word);
    }

    fn quoted(&mut self, token: Token, valid: bool, comma: bool)
        requires
            old(self)@.sound(),
        ensures
            final(self)@ == scan_quoted(old(self)@, token, valid, comma),
            final(self)@.sound(),
    {
        reveal(scan_quoted);
        let f = self.top();
        self.set_top(f.token(token));
        self.text(f, valid, comma);
    }

    fn plain(&mut self, token: Token)
        requires
            old(self)@.sound(),
        ensures
            final(self)@ == scan_plain(old(self)@, token),
            final(self)@.sound(),
    {
        reveal(scan_plain);
        let f = self.top();
        self.set_top(f.token(token));
    }

    fn token(&mut self, token: Token)
        requires
            old(self)@.sound(),
        ensures
            final(self)@ == scan_token(old(self)@, token),
            final(self)@.sound(),
    {
        reveal(scan_token);
        self.number(token);
        match token {
            Token::Mark(b) => self.mark(b),
            Token::Name(word, _) => self.named(token, word),
            Token::Text(_, valid, comma) => self.quoted(token, valid, comma),
            _ => self.plain(token),
        }
        self.set_last(token);
    }

    fn lexed(&mut self, lexed: (Lexer, Option<Token>))
        requires
            old(self)@.sound(),
            lexed.0.in_range(),
        ensures
            final(self)@ == scan_lexed(old(self)@, lexed),
            final(self)@.sound(),
    {
        self.set_lexer(lexed.0);
        if let Some(token) = lexed.1 {
            self.token(token);
        }
    }

    fn between(&mut self, b: u8)
        requires
            old(self)@.sound(),
        ensures
            final(self)@ == scan_between(old(self)@, b),
            final(self)@.sound(),
    {
        reveal(scan_between);
        let lexed = self.lexer.between(b);
        self.lexed(lexed);
    }

    fn word(&mut self, b: u8)
        requires
            old(self)@.sound(),
        ensures
            final(self)@ == scan_word(old(self)@, b),
            final(self)@.sound(),
    {
        reveal(scan_word);
        match self.lexer.word(b) {
            Some(l) => {
                self.set_lexer(l);
            },
            None => {
                let token = self.lexer.word_token();
                self.token(token);
                self.between(b);
            },
        }
    }

    fn step(&mut self, b: u8)
        requires
            old(self)@.sound(),
        ensures
            final(self)@ == scan_step(old(self)@, b),
            final(self)@.sound(),
    {
        reveal(scan_step);
        let l = self.lexer;
        match l.mode {
            ScanMode::Between => {
                self.between(b);
            },
            ScanMode::Slash => if b == 0x2f {
                self.comment(l.at(ScanMode::Line));
            } else if b == 0x2a {
                self.comment(Lexer { mode: ScanMode::Block, nested: 1, before: 0, ..l });
            } else {
                self.token(Token::Other);
                self.between(b);
            },
            ScanMode::Line => if b == 0x0a {
                self.set_lexer(l.at(ScanMode::Between));
            },
            ScanMode::Block => {
                self.set_lexer(l.block(b));
            },
            ScanMode::Dot => if decimal(b) {
                self.set_lexer(l.at(ScanMode::Digits));
            } else {
                self.token(Token::Mark(0x2e));
                self.between(b);
            },
            ScanMode::Quote => {
                self.lexed(l.text(b));
            },
            ScanMode::Escape => {
                self.lexed(l.text(b));
            },
            ScanMode::EscapeDigit => {
                self.lexed(l.text(b));
            },
            ScanMode::CodeStart => {
                self.lexed(l.text(b));
            },
            ScanMode::CodeOpen => {
                self.lexed(l.text(b));
            },
            ScanMode::Code => {
                self.lexed(l.text(b));
            },
            _ => {
                self.word(b);
            },
        }
    }
}

fn scan(contract: bool, bytes: &[u8]) -> (s: Scan)
    ensures
        s@ == scan_bytes(contract, bytes@),
{
    let mut s = Scan::start(contract);
    let mut i: usize = 0;
    while i < bytes.len()
        invariant
            i <= bytes@.len(),
            s@ == scan_bytes(contract, bytes@.take(i as int)),
            s@.sound(),
        decreases bytes.len() - i,
    {
        proof {
            let next = bytes@.take(i + 1);
            assert(next.drop_last() =~= bytes@.take(i as int));
            assert(next.last() == bytes@[i as int]);
        }
        s.step(bytes[i]);
        i += 1;
    }
    assert(bytes@.take(bytes@.len() as int) =~= bytes@);
    s
}

/// Whether a text of values can be parsed.
pub fn check_values(text: &str) -> (readable: bool)
    ensures
        readable == are_values_readable(text@),
{
    let s = scan(false, text.as_bytes());
    !s.capital && !s.overflow && !s.invalid && !s.deep && !s.mixed_typed
}

/// Whether a text of values can be parsed and fitted to types.
pub fn check_arguments(text: &str) -> (readable: bool)
    ensures
        readable == are_arguments_readable(text@),
{
    let s = scan(false, text.as_bytes());
    !s.capital && !s.overflow && !s.invalid && !s.deep && !s.mixed_typed && !s.mixed
}

/// Whether a contract can be parsed.
pub fn check_contract(text: &str) -> (readable: bool)
    ensures
        readable == is_contract_readable(text@),
{
    let s = scan(true, text.as_bytes());
    !s.overflow && !s.invalid && !s.deep && s.types <= MAX_TYPES
}

/// Whether a contract can be parsed and replies can be decoded by it.
pub fn check_decoding(text: &str) -> (decodable: bool)
    ensures
        decodable == is_contract_decodable(text@),
{
    let s = scan(true, text.as_bytes());
    !s.overflow && !s.invalid && !s.deep && s.types <= MAX_TYPES && !s.comma
}

} // verus!
